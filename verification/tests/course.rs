use vidownload::browser::{polled_streams, BrowserState};
use vidownload::callback::{callback_detected_stream, callback_detected_stream_now, callback_report, extract_param};
use vidownload::chrome::{add_attachments, CourseLesson, MemberkitLesson};
use vidownload::commands::{
    is_memberkit_url, lesson_vimeo_id, lesson_video, masked_credentials, register_video_streams, report_stream, report_stream_now,
    vimeo_failed,
};
use vidownload::config::SiteCredential;
use vidownload::course::{
    attachment_file_name, chosen_stream_index, course_parallelism, course_platform, derive_name, hotmart_tree,
    kind_of, lesson_file_name, lesson_plan, memberkit_root, memberkit_tree, module_dir_name, sanitize,
    video_source, CoursePlatform, CourseState, LessonPlan, VideoSource,
};
use vidownload::m3u8::parse_master_playlist;
use vidownload::downloader::m3u8_video;
use vidownload::sniffer::SnifferState;

#[test]
fn sanitized_names_are_safe() {
    assert_eq!(sanitize("  Aula 1: Introdução / Parte? <2>  "), "Aula 1- Introdução - Parte- -2-");
    assert_eq!(sanitize("Fim do módulo..."), "Fim do módulo");
    assert_eq!(sanitize("a\tb\u{1}c"), "a b c");
    assert_eq!(sanitize(" . "), "");
    for s in ["x|y*z", "\"q\"", "name. . ", "ok"] {
        let r = sanitize(s);
        assert!(!r.chars().any(|c| "/\\:*?\"<>|".contains(c) || (c as u32) < 0x20));
        assert_eq!(r.trim(), r);
    }
}

#[test]
fn numbered_names_on_disk() {
    assert_eq!(module_dir_name(3, "Módulo: Início"), "03. Módulo- Início");
    assert_eq!(lesson_file_name(12, "Aula final."), "12. Aula final.mp4");
    assert_eq!(attachment_file_name(0, "slides.pdf"), "00. slides.pdf");
    assert_eq!(lesson_file_name(100, "x"), "100. x.mp4");
}

#[test]
fn attachment_kinds() {
    assert_eq!(kind_of("https://cdn/x/Apostila.PDF?sig=1"), "pdf");
    assert_eq!(kind_of("https://cdn/x/data.zip"), "file");
    assert_eq!(kind_of("https://cdn/x/file?name=a.pdf"), "file");
}

#[test]
fn course_names() {
    assert_eq!(derive_name("https://escola.memberkit.com.br/210366-projeto-caminhoes-s-a"), "Projeto Caminhoes S A");
    assert_eq!(derive_name("https://e.com/210366-projeto-x/"), "Projeto X");
    assert_eq!(derive_name("https://e.com/curso"), "Curso");
    assert_eq!(derive_name("https://e.com/1-ábaco--final"), "Ábaco  Final");
}

#[test]
fn memberkit_roots() {
    assert_eq!(
        memberkit_root("https://escola.memberkit.com.br/210366-projeto/aulas/9?x=1"),
        Some("https://escola.memberkit.com.br/210366-projeto".to_string())
    );
    assert_eq!(memberkit_root("mailto:a@b.c"), None);
    assert_eq!(memberkit_root("garbage"), None);
}

#[test]
fn platforms() {
    assert_eq!(course_platform("escola.memberkit.com.br"), Ok(CoursePlatform::Memberkit));
    assert_eq!(course_platform("club.hotmart.com"), Ok(CoursePlatform::Hotmart));
    assert_eq!(
        course_platform("example.com"),
        Err("Este link não é de um curso suportado (MemberKit/Hotmart).".to_string())
    );
}

#[test]
fn parallel_downloads() {
    assert_eq!(course_parallelism("hotmart", Some(6)), 1);
    assert_eq!(course_parallelism("memberkit", None), 5);
    assert_eq!(course_parallelism("memberkit", Some(0)), 1);
    assert_eq!(course_parallelism("memberkit", Some(20)), 8);
    assert_eq!(course_parallelism("memberkit", Some(3)), 3);
}

#[test]
fn lesson_plans() {
    assert_eq!(lesson_plan(false, Some(5_000_000)), LessonPlan::NoVideo);
    assert_eq!(lesson_plan(true, Some(100_001)), LessonPlan::AlreadyThere);
    assert_eq!(lesson_plan(true, Some(100_000)), LessonPlan::Download);
    assert_eq!(lesson_plan(true, None), LessonPlan::Download);
    assert_eq!(LessonPlan::AlreadyThere.status(), "skipped");
    assert_eq!(chosen_stream_index(0, 3), 0);
    assert_eq!(chosen_stream_index(7, 3), 2);
    assert_eq!(chosen_stream_index(4, 0), 0);
}

fn mk_lesson(vimeo: Option<&str>) -> MemberkitLesson {
    MemberkitLesson {
        module_index: 1,
        module_name: "M".to_string(),
        lesson_index: 2,
        title: "T".to_string(),
        lesson_url: "https://e.com/l/2".to_string(),
        vimeo_id: vimeo.map(String::from),
        attachments: vec![("Apostila".to_string(), "https://e.com/a.pdf".to_string())],
    }
}

#[test]
fn trees_for_the_interface() {
    let tree = memberkit_tree("https://e.com/9-meu-curso", &vec![mk_lesson(Some("77")), mk_lesson(None)]);
    assert_eq!(tree.platform, "memberkit");
    assert_eq!(tree.course_name, "Meu Curso");
    assert!(tree.lessons[0].has_video);
    assert!(!tree.lessons[1].has_video);
    assert_eq!(tree.lessons[0].key, "https://e.com/l/2");
    assert_eq!(tree.lessons[0].attachments[0].kind, "pdf");
    assert_eq!(tree.lessons[0].content_url, Some("https://e.com/l/2".to_string()));
    let h = hotmart_tree(&vec![CourseLesson {
        module_index: 1,
        module_name: "M".to_string(),
        lesson_index: 1,
        title: "T".to_string(),
        content_url: "https://h/content/x".to_string(),
    }]);
    assert_eq!(h.course_name, "Curso Hotmart");
    assert!(h.lessons[0].has_video && h.lessons[0].attachments.is_empty());
    assert_eq!(h.lessons[0].key, "https://h/content/x");
}

#[test]
fn video_sources() {
    let tree = memberkit_tree("https://e.com/9-c", &vec![mk_lesson(Some("77")), mk_lesson(None)]);
    match video_source("memberkit", &tree.lessons[0]).unwrap() {
        VideoSource::Vimeo { id, referer } => {
            assert_eq!(id, "77");
            assert_eq!(referer, Some("https://e.com/l/2".to_string()));
        },
        _ => panic!("vimeo expected"),
    }
    assert_eq!(video_source("memberkit", &tree.lessons[1]).unwrap_err(), "sem vimeo");
    let mut no_url = mk_lesson(None);
    no_url.lesson_url = String::new();
    let t2 = memberkit_tree("https://e.com/9-c", &vec![no_url]);
    match video_source("hotmart", &t2.lessons[0]).unwrap() {
        VideoSource::Page { content_url } => assert_eq!(content_url, ""),
        _ => panic!("page expected"),
    }
}

#[test]
fn cancel_flags() {
    let mut c = CourseState::default();
    assert!(!c.cancel);
    c.request_cancel();
    assert!(c.cancel);
    c.reset();
    assert!(!c.cancel);
    let mut b = BrowserState::default();
    assert!(!b.is_open);
    b.opened();
    assert!(b.is_open);
    b.closed();
    assert!(!b.is_open);
}

#[test]
fn callback_parameters() {
    let line = "GET /detected?url=https%3A%2F%2Fcdn%2Fa.m3u8&source=fetch HTTP/1.1";
    assert_eq!(extract_param(line, "url"), Some("https%3A%2F%2Fcdn%2Fa.m3u8".to_string()));
    assert_eq!(extract_param(line, "source"), Some("fetch".to_string()));
    assert_eq!(extract_param(line, "missing"), None);
    assert_eq!(extract_param("GET /detected HTTP/1.1", "url"), None);
    assert_eq!(extract_param("GET /x?flag&url=a=b", "url"), Some("a=b".to_string()));
    assert_eq!(
        callback_report(line),
        Some(("https://cdn/a.m3u8".to_string(), "fetch".to_string()))
    );
    assert_eq!(
        callback_report("GET /detected?url=plain HTTP/1.1"),
        Some(("plain".to_string(), "callback".to_string()))
    );
    assert_eq!(callback_report("GET /other?url=x HTTP/1.1"), None);
    assert_eq!(
        callback_report("GET /detected?url=%FF HTTP/1.1"),
        Some(("%FF".to_string(), "callback".to_string()))
    );
    let d = callback_detected_stream(line, 99).unwrap();
    assert_eq!(d.url, "https://cdn/a.m3u8");
    assert_eq!(d.timestamp, 99);
    assert!(d.content_type.is_none());
}

#[test]
fn browser_title_streams() {
    assert_eq!(
        polled_streams(r#"VI_STREAMS:["https://a/x.m3u8","https://b/y.mpd"]"#),
        vec!["https://a/x.m3u8".to_string(), "https://b/y.mpd".to_string()]
    );
    assert!(polled_streams("VI_STREAMS:not json").is_empty());
    assert!(polled_streams("Some page").is_empty());
}

#[test]
fn masked_passwords() {
    let l = vec![
        SiteCredential { host: "a".to_string(), email: "e".to_string(), password: "secret".to_string() },
        SiteCredential { host: "b".to_string(), email: "f".to_string(), password: String::new() },
    ];
    let m = masked_credentials(&l);
    assert_eq!(m[0].password, "••••••••");
    assert_eq!(m[0].host, "a");
    assert_eq!(m[1].password, "");
}

#[test]
fn analysed_streams_are_registered_once() {
    let master = "#EXTM3U\n#EXT-X-STREAM-INF:BANDWIDTH=1\na.m3u8\n#EXT-X-STREAM-INF:BANDWIDTH=2\nb.m3u8\n";
    let v = m3u8_video("vid_1".to_string(), "https://c/m.m3u8", master);
    let mut s = SnifferState::default();
    assert_eq!(register_video_streams(&mut s, &v, "analyzer"), 2);
    assert_eq!(register_video_streams(&mut s, &v, "analyzer"), 2);
    let all = s.get_all();
    assert_eq!(all.len(), 2);
    assert_eq!(all[0].content_type, Some("application/x-mpegurl".to_string()));
    assert_eq!(all[0].source, "analyzer");
    assert!(report_stream(&mut s, "https://c/new.m3u8".to_string(), "xhr".to_string(), 5));
    assert!(!report_stream(&mut s, "https://c/new.m3u8".to_string(), "xhr".to_string(), 6));
    assert_eq!(s.get_all().len(), 3);
    let _ = parse_master_playlist(master, "https://c/m.m3u8");
}

#[test]
fn memberkit_lesson_video() {
    let frames = vec!["https://www.youtube.com/embed/x".to_string(), "https://player.vimeo.com/video/555?h=2".to_string()];
    assert_eq!(lesson_vimeo_id(&frames), Ok("555".to_string()));
    assert_eq!(
        lesson_vimeo_id(&vec!["https://x".to_string()]).unwrap_err(),
        "Nenhum vídeo Vimeo encontrado nesta aula. (Ela usa outro player?)"
    );
    assert!(is_memberkit_url("https://escola.memberkit.com.br/1-c/2-a"));
    assert!(!is_memberkit_url("https://club.hotmart.com/x"));
    assert_eq!(vimeo_failed(), "Não foi possível extrair o stream do Vimeo (pode estar protegido por DRM).");
    let v = m3u8_video("vid_1".to_string(), "https://vimeo/m.m3u8", "#EXTM3U\n#EXTINF:1,\na.ts\n");
    let lv = lesson_video(v, Some("Aula 1".to_string()), "https://e.com/l/1");
    assert_eq!(lv.title, Some("Aula 1".to_string()));
    assert_eq!(lv.page_url, "https://e.com/l/1");
    assert_eq!(lv.streams.len(), 1);
}

#[test]
fn callback_url_keeps_broken_escapes_and_plus() {
    assert_eq!(
        callback_report("GET /detected?url=a%2Fb%zz%4+c%41 HTTP/1.1"),
        Some(("a/b%zz%4+cA".to_string(), "callback".to_string()))
    );
    assert_eq!(
        callback_report("GET /detected?url=caf%C3%A9%25 HTTP/1.1"),
        Some(("café%".to_string(), "callback".to_string()))
    );
}

#[test]
fn attachments_without_address_are_left_out() {
    let mut l = mk_lesson(None);
    let found = vec![
        ("Slides".to_string(), "https://e.com/s.pdf".to_string()),
        ("Broken".to_string(), String::new()),
        ("".to_string(), "https://e.com/x.zip".to_string()),
    ];
    add_attachments(&mut l, &found);
    let names: Vec<&str> = l.attachments.iter().map(|a| a.0.as_str()).collect();
    assert_eq!(names, vec!["Apostila", "Slides", ""]);
    assert_eq!(l.attachments[2].1, "https://e.com/x.zip");
    assert_eq!(l.title, "T");
}

#[test]
fn reports_stamped_with_the_clock() {
    let mut s = SnifferState::default();
    assert!(report_stream_now(&mut s, "https://a/x.m3u8".to_string(), "ui".to_string()));
    assert!(!report_stream_now(&mut s, "https://a/x.m3u8".to_string(), "ui".to_string()));
    assert_eq!(s.get_all().len(), 1);
    assert!(s.get_all()[0].timestamp > 0);
    let d = callback_detected_stream_now("GET /detected?url=https%3A%2F%2Fb%2Fy.m3u8 HTTP/1.1").unwrap();
    assert_eq!(d.url, "https://b/y.m3u8");
    assert!(d.timestamp > 0);
    assert!(callback_detected_stream_now("GET /other HTTP/1.1").is_none());
}
