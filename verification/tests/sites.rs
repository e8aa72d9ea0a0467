use vidownload::chrome::{
    at_login, BodyCapture, course_lessons, find_chrome, hit_title, login_round_needed, login_step, needs_lesson_reopen,
    password_fill_js, visible_chrome_args, LoginStep, headless_chrome_args, json_escape, looks_like_login, matches_any_needle,
    memberkit_lessons, page_settled, pick_debugger_url, response_body_text, session_is_stream_url,
    stream_type_of, CdpConn, CdpScan, NavModule, NavPage, PageProbe, ScrapedItem, SniffBest,
    scan_should_click, scan_should_stop, sniff_next_action, SniffAction,
};
use vidownload::config::{find_for_host, remove, upsert, SiteCredential};
use vidownload::extractors::{
    extract_inline_config, extract_json_field, extractor_for, find_stream_url_in_json, unip_api_url,
    unip_stream, vimeo_id_from_url, vimeo_player_url, vimeo_stream, Extractor, UnipAnswer, VimeoConfig,
    VimeoHls,
};
use vidownload::ffmpeg::{find_ffmpeg, is_available, mux_arguments, parse_progress_line, ProgressLine};

fn cred(host: &str, email: &str, password: &str) -> SiteCredential {
    SiteCredential { host: host.to_string(), email: email.to_string(), password: password.to_string() }
}

#[test]
fn upsert_twice_is_upsert_once() {
    let mut a = vec![cred("a.com", "x@a", "1")];
    upsert(&mut a, cred("  Club.Hotmart.com ", "me@h", "pw"));
    assert_eq!(a.len(), 2);
    assert_eq!(a[1].host, "club.hotmart.com");
    let mut b = vec![cred("a.com", "x@a", "1")];
    upsert(&mut b, cred("  Club.Hotmart.com ", "me@h", "pw"));
    upsert(&mut b, cred("  Club.Hotmart.com ", "me@h", "pw"));
    assert_eq!(b.len(), 2);
    assert_eq!(b[1].email, "me@h");
    upsert(&mut b, cred("A.COM", "new@a", "2"));
    assert_eq!(b.len(), 2);
    assert_eq!(b[0].host, "a.com");
    assert_eq!(b[0].email, "new@a");
}

#[test]
fn removed_host_is_gone() {
    let mut l = vec![cred("a.com", "1", "1"), cred("b.com", "2", "2"), cred("A.com", "3", "3")];
    remove(&mut l, "a.COM");
    assert_eq!(l.len(), 1);
    assert_eq!(l[0].host, "b.com");
    assert!(find_for_host(&l, "a.com").is_none());
}

#[test]
fn credentials_match_by_suffix() {
    let l = vec![cred("memberkit.com.br", "e", "p")];
    assert_eq!(find_for_host(&l, "Escola.MemberKit.com.br").unwrap().email, "e");
    assert!(find_for_host(&l, "example.com").is_none());
    let long = vec![cred("potenza.memberkit.com.br", "a@b.c", "p")];
    assert_eq!(find_for_host(&long, "memberkit.com.br").unwrap().email, "a@b.c");
    assert!(find_for_host(&long, "").is_none());
    let empty = vec![cred("", "e", "p")];
    assert!(find_for_host(&empty, "a.com").is_none());
}

#[test]
fn routing_to_extractors() {
    assert!(matches!(extractor_for("https://sistemas.unip.br/x?id=3"), Extractor::Unip));
    match extractor_for("https://player.vimeo.com/video/123456?h=1") {
        Extractor::Vimeo(id) => assert_eq!(id, "123456"),
        _ => panic!("vimeo expected"),
    }
    assert!(matches!(extractor_for("https://example.com/"), Extractor::Unknown));
    assert_eq!(vimeo_id_from_url("https://vimeo.com/987"), Some("987".to_string()));
    assert_eq!(vimeo_player_url("42"), "https://player.vimeo.com/video/42");
}

#[test]
fn vimeo_inline_config_is_cut_at_its_closing_brace() {
    let html = r#"<script>window.playerConfig = {"a":{"b":"}"},"c":1};var x=2;</script>"#;
    assert_eq!(extract_inline_config(html), Some(r#"{"a":{"b":"}"},"c":1}"#.to_string()));
    assert_eq!(extract_inline_config("<p>none</p>"), None);
}

#[test]
fn vimeo_cdn_choice() {
    let cfg = VimeoConfig {
        drm: false,
        hls: Some(VimeoHls {
            default_cdn: Some("fastly".to_string()),
            cdns: vec![
                ("akamai".to_string(), Some("https://ak/x.m3u8".to_string())),
                ("fastly".to_string(), Some("https://fa/x.m3u8".to_string())),
            ],
        }),
        title: Some("Aula".to_string()),
    };
    let r = vimeo_stream(&cfg, Some("https://escola.com/aula")).unwrap();
    assert_eq!(r.m3u8_url, "https://fa/x.m3u8");
    assert_eq!(r.title, Some("Aula".to_string()));
    assert_eq!(r.headers, vec![("referer".to_string(), "https://escola.com/aula".to_string())]);
    let drm = VimeoConfig { drm: true, hls: None, title: None };
    assert!(vimeo_stream(&drm, None).is_none());
}

#[test]
fn unip_answers() {
    assert_eq!(
        unip_api_url("https://sistemas.unip.br/ava/aula?id=1&x=2&id=77"),
        Some("https://tvweb3.unip.br/api/transmissao/77".to_string())
    );
    assert_eq!(unip_api_url("https://sistemas.unip.br/ava/aula"), None);
    let answer = UnipAnswer {
        titulo: None,
        nome: Some(Some("Aula 3".to_string())),
        title: Some(Some("ignored".to_string())),
        midias: Some(vec![None, Some("https://m/a.mp4".to_string()), Some("https://m/b.m3u8".to_string())]),
    };
    let r = unip_stream("{}", Some(&answer)).unwrap();
    assert_eq!(r.m3u8_url, "https://m/b.m3u8");
    assert_eq!(r.title, Some("Aula 3".to_string()));
    let body = r#"{"titulo": "T1", "url": "https://cdn.azureedge.net/v/stream.ism/manifest"}"#;
    let r = unip_stream(body, None).unwrap();
    assert_eq!(r.m3u8_url, "https://cdn.azureedge.net/v/stream.ism/manifest(format=m3u8-cmaf)");
    assert_eq!(r.title, Some("T1".to_string()));
}

#[test]
fn json_helpers() {
    assert_eq!(
        find_stream_url_in_json(r#"{"a":"https://x.com/v/index.m3u8?k=1"}"#),
        Some("https://x.com/v/index.m3u8?k=1".to_string())
    );
    assert_eq!(find_stream_url_in_json(r#"{"a":"https://x.com/a.png"}"#), None);
    assert_eq!(extract_json_field(r#"{"nome" : "Aula"}"#, "nome"), Some("Aula".to_string()));
}

#[test]
fn ffmpeg_command_line() {
    let args = mux_arguments("https://v/1.m3u8", Some("https://a/1.m3u8"), Some("https://ref/"), "/tmp/o.mp4");
    assert_eq!(args[0], "-hide_banner");
    assert_eq!(args.iter().filter(|a| *a == "-i").count(), 2);
    assert!(args.contains(&"Referer: https://ref/\r\n".to_string()));
    assert!(args.contains(&"1:a:0".to_string()));
    assert_eq!(args.last().unwrap(), "/tmp/o.mp4");
    let plain = mux_arguments("https://v/1.m3u8", None, None, "o.mp4");
    assert_eq!(
        plain,
        vec![
            "-hide_banner", "-loglevel", "error", "-y", "-user_agent",
            "Mozilla/5.0 (Macintosh; Intel Mac OS X 10_15_7) AppleWebKit/537.36 (KHTML, like Gecko) Chrome/131.0.0.0 Safari/537.36",
            "-i", "https://v/1.m3u8", "-map", "0", "-c", "copy", "-movflags", "+faststart", "-progress", "pipe:1",
            "-nostats", "o.mp4",
        ]
    );
}

#[test]
fn ffmpeg_progress_lines() {
    assert_eq!(parse_progress_line("out_time_us=1500000"), ProgressLine::OutTimeUs(1500000));
    assert_eq!(parse_progress_line("out_time_us= 42 "), ProgressLine::OutTimeUs(42));
    assert_eq!(parse_progress_line("out_time_us=-5"), ProgressLine::Other);
    assert_eq!(parse_progress_line("out_time_us=N/A"), ProgressLine::Other);
    assert_eq!(parse_progress_line("progress=end"), ProgressLine::End);
    assert_eq!(parse_progress_line("progress=continue"), ProgressLine::Other);
}

#[test]
fn cdp_stream_detection() {
    assert!(session_is_stream_url("https://cdn/x/master.m3u8?t=1", ""));
    assert!(session_is_stream_url("https://cdn/x/seg", "application/vnd.apple.mpegurl"));
    assert!(!session_is_stream_url("blob:https://cdn/x.m3u8", ""));
    assert!(!session_is_stream_url("https://cdn/x/a.js", "text/javascript"));
    assert_eq!(stream_type_of("https://cdn/x.m3u8", ""), "hls");
    assert_eq!(stream_type_of("https://cdn/x.mpd", ""), "dash");
    assert_eq!(stream_type_of("https://cdn/hls/x", ""), "unknown");
}

#[test]
fn cdp_scan_keeps_each_url_once() {
    let mut scan = CdpScan::new();
    assert!(scan.observe("https://cdn/a.m3u8", "", 0).is_some());
    assert!(scan.observe("https://cdn/a.m3u8", "", 200).is_none());
    assert!(scan.observe("https://cdn/b.m3u8", "", 404).is_none());
    assert!(scan.observe("https://cdn/page.html", "text/html", 200).is_none());
    let found = scan.found();
    assert_eq!(found.len(), 1);
    assert_eq!(scan.outcome().unwrap().len(), 1);
    assert_eq!(CdpScan::new().outcome().unwrap_err(), "Nenhum stream encontrado na página");
    assert_eq!(found[0].stream_type, "hls");
}

#[test]
fn debugger_url_prefers_pages() {
    let t = vec![
        (Some("service_worker".to_string()), Some("ws://sw".to_string())),
        (Some("page".to_string()), Some("ws://page".to_string())),
    ];
    assert_eq!(pick_debugger_url(&t), Some("ws://page".to_string()));
    let t = vec![(Some("page".to_string()), None), (Some("other".to_string()), Some("ws://o".to_string()))];
    assert_eq!(pick_debugger_url(&t), Some("ws://o".to_string()));
    assert_eq!(pick_debugger_url(&Vec::new()), None);
}

#[test]
fn login_pages_and_escaping() {
    let probe = |pass: bool, url: &str| PageProbe {
        ready: true,
        has_password: pass,
        frames: Vec::new(),
        url: url.to_string(),
        title: String::new(),
    };
    assert!(looks_like_login(&probe(true, "https://x.com/")));
    assert!(looks_like_login(&probe(false, "https://SSO.hotmart.com/login")));
    assert!(!looks_like_login(&probe(false, "https://club.hotmart.com/lesson/1")));
    assert_eq!(json_escape("a\"b\\c\nd"), "a\\\"b\\\\c\\nd");
    let form = probe(true, "https://x.com/login");
    assert_eq!(login_step(&form, Some("a@b"), Some("pw")), LoginStep::FillForm);
    assert_eq!(login_step(&form, Some("a@b"), Some("")), LoginStep::NeedCredentials);
    assert_eq!(login_step(&form, None, None), LoginStep::NeedCredentials);
    assert_eq!(login_step(&probe(false, "https://x.com/"), None, None), LoginStep::Ready);
    assert!(at_login(&form));
    let mut settled = probe(false, "https://x.com/");
    assert!(!page_settled(&settled));
    settled.frames.push("https://player.vimeo.com/video/1".to_string());
    assert!(page_settled(&settled));
}

#[test]
fn sniffing_keeps_the_master_playlist() {
    let mut best = SniffBest::new();
    assert!(best.offer("https://cdn/v/720p.m3u8", None, ""));
    assert_eq!(best.best.as_ref().unwrap().0, "https://cdn/v/720p.m3u8");
    assert!(best.offer("https://cdn/v/master.m3u8", Some("https://ref".to_string()), ""));
    assert!(best.best_is_master);
    assert!(best.offer("https://cdn/v/other/master.m3u8", None, ""));
    assert_eq!(best.best.as_ref().unwrap().0, "https://cdn/v/master.m3u8");
    assert!(!best.offer("https://cdn/v/seg1.ts", None, "video/mp2t"));
}

#[test]
fn memberkit_scraped_lessons_are_numbered() {
    let items = vec![
        ScrapedItem::Other,
        ScrapedItem::Module(Some("Módulo 3 - Início".to_string())),
        ScrapedItem::Lesson(Some("Aula 7: Boas-vindas".to_string()), Some("https://e.com/l/1".to_string())),
        ScrapedItem::Lesson(None, Some("https://e.com/l/2".to_string())),
        ScrapedItem::Module(None),
        ScrapedItem::Lesson(Some("Extra".to_string()), None),
    ];
    let lessons = memberkit_lessons(&items);
    assert_eq!(lessons.len(), 3);
    assert_eq!((lessons[0].module_index, lessons[0].lesson_index), (3, 7));
    assert_eq!(lessons[1].title, "Aula");
    assert_eq!(lessons[1].lesson_index, 2);
    assert_eq!(lessons[2].module_name, "Módulo");
    assert_eq!((lessons[2].module_index, lessons[2].lesson_index), (2, 1));
    assert_eq!(lessons[2].lesson_url, "");
}

#[test]
fn hotmart_navigation_lists_video_lessons() {
    let page = |name: Option<&str>, hash: Option<&str>, media: Option<bool>, kind: Option<&str>| NavPage {
        name: name.map(String::from),
        hash: hash.map(String::from),
        has_player_media: media,
        first_media_type: kind.map(String::from),
    };
    let modules = vec![
        NavModule {
            name: Some("Intro".to_string()),
            pages: Some(vec![
                page(Some("Texto"), Some("h0"), Some(true), Some("TEXT")),
                page(Some("Vídeo 1"), Some("h1"), Some(true), Some("video")),
                page(None, Some("h2"), Some(true), Some("VIDEO")),
                page(Some("Sem hash"), None, Some(true), Some("VIDEO")),
            ]),
        },
        NavModule { name: None, pages: None },
        NavModule { name: None, pages: Some(vec![page(Some("Fim"), Some("h9"), Some(true), Some("VIDEO"))]) },
    ];
    let l = course_lessons("https://club.hotmart.com/x/content/abc", &modules);
    assert_eq!(l.len(), 3);
    assert_eq!((l[0].module_index, l[0].lesson_index), (1, 2));
    assert_eq!(l[0].content_url, "https://club.hotmart.com/x/content/h1");
    assert_eq!(l[1].title, "Aula");
    assert_eq!(l[1].lesson_index, 3);
    assert_eq!((l[2].module_index, l[2].lesson_index), (3, 1));
    assert_eq!(l[2].module_name, "Módulo");
}

#[test]
fn response_bodies() {
    assert_eq!(response_body_text("", false), None);
    assert_eq!(response_body_text("plain", false), Some("plain".to_string()));
    assert_eq!(response_body_text("aGVsbG8=", true), Some("hello".to_string()));
    assert_eq!(response_body_text("%%%", true), None);
    assert!(matches_any_needle("https://api.x/v1/navigation?a=1", &vec!["/v1/navigation".to_string()]));
    assert!(!matches_any_needle("https://api.x/other", &vec!["/v1/navigation".to_string()]));
}

#[test]
fn chrome_launch() {
    assert_eq!(find_chrome(&vec![false, false, true, true]), Some("/usr/bin/google-chrome".to_string()));
    assert_eq!(find_chrome(&vec![false]), None);
    let args = headless_chrome_args(9333, "/tmp/prof", "1400,1000", true);
    assert_eq!(args.len(), 12);
    assert_eq!(args[7], "--autoplay-policy=no-user-gesture-required");
    assert_eq!(args[8], "--remote-debugging-port=9333");
    assert_eq!(args[9], "--user-data-dir=/tmp/prof");
    assert_eq!(args[10], "--window-size=1400,1000");
    assert_eq!(headless_chrome_args(1, "p", "1280,900", false).len(), 11);
    let mut c = CdpConn::new();
    assert_eq!(c.take_id(), 1);
    assert_eq!(c.take_id(), 2);
}

#[test]
fn finding_ffmpeg() {
    assert_eq!(find_ffmpeg(&vec![false, true, true, false], None), Some("/usr/local/bin/ffmpeg".to_string()));
    assert_eq!(find_ffmpeg(&vec![false; 4], Some("  /nix/bin/ffmpeg\n")), Some("/nix/bin/ffmpeg".to_string()));
    assert_eq!(find_ffmpeg(&vec![false; 4], Some(" \n")), None);
    assert!(!is_available(&Vec::new(), None));
    assert!(is_available(&vec![true], None));
}

#[test]
fn removing_a_new_host_undoes_saving_it() {
    let mut l = vec![cred("a.com", "x", "1"), cred("b.com", "y", "2")];
    upsert(&mut l, cred(" New.Site.com ", "n", "3"));
    assert_eq!(l.len(), 3);
    remove(&mut l, "new.site.com");
    let hosts: Vec<&str> = l.iter().map(|c| c.host.as_str()).collect();
    assert_eq!(hosts, vec!["a.com", "b.com"]);
    assert_eq!(l[1].email, "y");
}

#[test]
fn visible_login_helpers() {
    let args = visible_chrome_args(9444, "/p");
    assert_eq!(args.len(), 10);
    assert_eq!(args[5], "--disable-blink-features=AutomationControlled");
    assert_eq!(args[6], "--remote-debugging-port=9444");
    assert_eq!(args[8], "--window-size=1280,900");
    let js = password_fill_js("a\"b@c", "p\\w");
    assert!(js.contains("eF.value=\"a\\\"b@c\""));
    assert!(js.contains("pF.value=\"p\\\\w\""));
    assert!(js.contains("if(eF && !eF.value)"));
    let probe = |pass: bool, url: &str| PageProbe {
        ready: true,
        has_password: pass,
        frames: Vec::new(),
        url: url.to_string(),
        title: String::new(),
    };
    assert!(login_round_needed(&probe(false, "https://SSO.Hotmart.com/x")));
    assert!(!login_round_needed(&probe(false, "https://club.hotmart.com/signin")));
    assert!(needs_lesson_reopen("https://club.hotmart.com/home"));
    assert!(!needs_lesson_reopen("https://club.hotmart.com/x/content/abc"));
    assert_eq!(hit_title("  "), None);
    assert_eq!(hit_title(" Aula 1 "), Some(" Aula 1 ".to_string()));
}

#[test]
fn removing_the_saved_ascii_host_gives_back_the_list() {
    let mut l = vec![cred("a.com", "x", "1")];
    upsert(&mut l, cred("New.Site.com", "n", "3"));
    assert_eq!(l[1].host, "new.site.com");
    remove(&mut l, "New.Site.com");
    assert_eq!(l.len(), 1);
    assert_eq!((l[0].host.as_str(), l[0].email.as_str()), ("a.com", "x"));
}

#[test]
fn body_capture_tracks_matching_requests() {
    let needles = vec!["/v1/navigation".to_string()];
    let mut c = BodyCapture::new();
    c.on_response("https://api/v1/navigation?a", "r1", &needles);
    c.on_response("https://api/other", "r2", &needles);
    c.on_response("https://api/v1/navigation", "", &needles);
    c.on_response("https://api/v1/navigation?b", "r3", &needles);
    assert!(c.fetch_now("r1"));
    assert!(!c.fetch_now("r2"));
    assert_eq!(c.fallback_order(), vec!["r3".to_string(), "r1".to_string()]);
    assert!(BodyCapture::new().fallback_order().is_empty());
}

#[test]
fn page_scan_stops_three_seconds_after_the_first_stream() {
    assert!(scan_should_stop(0, None));
    assert!(!scan_should_stop(1, None));
    assert!(!scan_should_stop(1_000, Some(3_000_000_000)));
    assert!(scan_should_stop(1_000, Some(3_000_000_001)));
    assert!(scan_should_click(true, false, false));
    assert!(!scan_should_click(false, false, false));
    assert!(!scan_should_click(true, true, false));
    assert!(!scan_should_click(true, false, true));
}

#[test]
fn sniffer_rounds() {
    assert_eq!(sniff_next_action(0, None, false, 0), SniffAction::Stop);
    assert_eq!(sniff_next_action(5, Some(10), true, 0), SniffAction::Stop);
    assert_eq!(sniff_next_action(5, Some(2_000_000_001), false, 0), SniffAction::Stop);
    assert_eq!(sniff_next_action(5, Some(2_000_000_000), false, 9_000_000_000), SniffAction::Read);
    assert_eq!(sniff_next_action(5, None, false, 4_000_000_001), SniffAction::ClickThenRead);
    assert_eq!(sniff_next_action(5, None, false, 4_000_000_000), SniffAction::Read);
}
