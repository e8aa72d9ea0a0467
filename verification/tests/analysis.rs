use vidownload::crypto::{decrypt_aes128_cbc, iv_from_sequence, key_from_bytes, parse_iv_hex};
use vidownload::downloader::{
    classify_body, extract_m3u8_urls, extract_title, m3u8_video, page_stream_urls, page_video,
    streams_from_playlist, video_id, BodyKind,
};
use vidownload::m3u8::{is_m3u8, is_master_playlist, parse_master_playlist, parse_media_playlist, sort_by_bandwidth_desc};
use vidownload::remux::{concat_file_names, is_fmp4_segment, is_ts_segment, parse_mp4_boxes, segment_file_name, OutputFormat};
use vidownload::types::CapturedHeaders;
use vidownload::config::host_of;
use vidownload::m3u8::resolve_url;

const MASTER: &str = "#EXTM3U
#EXT-X-STREAM-INF:BANDWIDTH=800000,RESOLUTION=842x480
480p.m3u8
#EXT-X-STREAM-INF:BANDWIDTH=5000000,RESOLUTION=1920x1080
1080p.m3u8
#EXT-X-STREAM-INF:BANDWIDTH=2800000,RESOLUTION=1280x720
720p.m3u8
";

#[test]
fn best_quality_comes_first() {
    let v = m3u8_video("vid_1".to_string(), "https://cdn.example.com/v/master.m3u8", MASTER);
    assert_eq!(v.best_quality_index, 0);
    assert_eq!(v.streams.len(), 3);
    let best = v.streams[v.best_quality_index].bandwidth;
    for s in &v.streams {
        assert!(s.bandwidth <= best);
    }
    assert_eq!(v.streams[0].url, "https://cdn.example.com/v/1080p.m3u8");
    assert_eq!(v.streams[1].bandwidth, 2800000);
    assert_eq!(v.streams[2].bandwidth, 800000);
}

#[test]
fn sort_keeps_every_stream_and_orders_by_bandwidth() {
    let mut streams = parse_master_playlist(MASTER, "https://cdn.example.com/v/master.m3u8");
    streams.reverse();
    let sorted = sort_by_bandwidth_desc(streams);
    let bw: Vec<u64> = sorted.iter().map(|s| s.bandwidth).collect();
    assert_eq!(bw, vec![5000000, 2800000, 800000]);
}

#[test]
fn bandwidth_is_matched_as_a_whole_attribute() {
    let content = "#EXTM3U\n#EXT-X-STREAM-INF:AVERAGE-BANDWIDTH=500000,BANDWIDTH=800000\nlow.m3u8\n";
    let streams = parse_master_playlist(content, "https://a.com/v/master.m3u8");
    assert_eq!(streams.len(), 1);
    assert_eq!(streams[0].bandwidth, 800000);
    assert_eq!(streams[0].quality, "800kbps");
    assert_eq!(streams[0].url, "https://a.com/v/low.m3u8");
    assert!(streams[0].resolution.is_none());
}

#[test]
fn quality_label_without_resolution_uses_kbps() {
    let content = "#EXTM3U\n#EXT-X-STREAM-INF:BANDWIDTH=128000\naudio.m3u8\n";
    let streams = parse_master_playlist(content, "https://example.com/a/master.m3u8");
    assert_eq!(streams.len(), 1);
    assert_eq!(streams[0].quality, "128kbps");
    assert_eq!(streams[0].url, "https://example.com/a/audio.m3u8");
}

#[test]
fn media_playlist_single_stream() {
    let body = "#EXTM3U\n#EXTINF:4.5,\na.ts\n#EXTINF:5,\nb.ts\n#EXT-X-ENDLIST\n";
    assert!(is_m3u8(body));
    assert!(!is_master_playlist(body));
    let streams = streams_from_playlist("https://example.com/x/index.m3u8", body);
    assert_eq!(streams.len(), 1);
    assert_eq!(streams[0].quality, "Original");
    assert_eq!(streams[0].segments.len(), 2);
    assert_eq!(streams[0].total_duration_us, 9_500_000);
    assert_eq!(streams[0].segments[1].url, "https://example.com/x/b.ts");
    assert_eq!(streams[0].segments[1].duration_us, 5_000_000);
}

#[test]
fn non_playlist_gives_no_streams() {
    assert!(streams_from_playlist("https://example.com/x", "<html></html>").is_empty());
    assert!(!is_m3u8("hello"));
    assert!(is_m3u8("  \n#EXTM3U\n"));
}

#[test]
fn media_sequence_numbers_segments() {
    let body = "#EXTM3U\n#EXT-X-MEDIA-SEQUENCE:7\n#EXTINF:2,\ns7.ts\n#EXTINF:2,\ns8.ts\n";
    let (segs, enc, total) = parse_media_playlist(body, "https://e.com/p/");
    assert!(!enc);
    assert_eq!(total, 4_000_000);
    assert_eq!(segs[0].sequence, 7);
    assert_eq!(segs[1].sequence, 8);
}

#[test]
fn byte_ranges_and_init_map() {
    let body = "#EXTM3U\n#EXT-X-MAP:URI=\"init.mp4\"\n#EXTINF:1,\n#EXT-X-BYTERANGE:1000@200\nmedia.mp4\n";
    let (segs, _, _) = parse_media_playlist(body, "https://e.com/p/");
    assert_eq!(segs.len(), 1);
    let br = segs[0].byte_range.as_ref().unwrap();
    assert_eq!(br.length, 1000);
    assert_eq!(br.offset, 200);
}

#[test]
fn classify_body_kinds() {
    assert_eq!(classify_body("#EXTM3U\n", "text/plain"), Ok(BodyKind::Playlist));
    assert_eq!(classify_body("<html>", "Text/HTML; charset=utf-8"), Ok(BodyKind::Page));
    assert_eq!(
        classify_body("{}", "application/json"),
        Err("No HLS streams found at this URL".to_string())
    );
}

#[test]
fn page_urls_found_and_resolved() {
    let html = r#"<video src="/media/master.m3u8?t=1"></video><a href="https://cdn.x.com/b.m3u8">b</a>
<script>var u = "/media/master.m3u8?t=1";</script>"#;
    let urls = extract_m3u8_urls(html, "https://site.com/page/watch");
    assert_eq!(
        urls,
        vec!["https://site.com/media/master.m3u8?t=1".to_string(), "https://cdn.x.com/b.m3u8".to_string()]
    );
    assert_eq!(
        page_stream_urls("<p>nothing</p>", "https://site.com/"),
        Err("No HLS streams found in page".to_string())
    );
}

#[test]
fn page_title_is_trimmed_and_decoded() {
    assert_eq!(
        extract_title("<html><head><TITLE>  Tom &amp; Jerry &#39;s  </TITLE></head>"),
        Some("Tom & Jerry 's".to_string())
    );
    assert_eq!(extract_title("<title>   </title>"), None);
    assert_eq!(extract_title("<p>no title</p>"), None);
}

#[test]
fn page_video_needs_a_stream() {
    assert_eq!(
        page_video("vid_2".to_string(), "https://s.com", "<title>T</title>", Vec::new()).unwrap_err(),
        "Found m3u8 URLs but could not parse any streams"
    );
    let streams = parse_master_playlist(MASTER, "https://cdn.example.com/v/master.m3u8");
    let v = page_video("vid_2".to_string(), "https://s.com", "<title>T</title>", streams).unwrap();
    assert_eq!(v.title, Some("T".to_string()));
    assert_eq!(v.streams[0].bandwidth, 5000000);
}

#[test]
fn video_ids() {
    assert_eq!(video_id(0), "vid_0");
    assert_eq!(video_id(1700000000123), "vid_1700000000123");
}

#[test]
fn iv_round_trip_of_sequence_numbers() {
    for n in [0u64, 1, 255, 256, 65535, u64::MAX] {
        let iv = iv_from_sequence(n);
        assert_eq!(iv[..8], [0u8; 8]);
        assert_eq!(u64::from_be_bytes(iv[8..].try_into().unwrap()), n);
    }
}

#[test]
fn iv_hex_errors() {
    assert_eq!(
        parse_iv_hex("0x1234").unwrap_err(),
        "IV inválido: esperado 32 hex chars, recebeu 4"
    );
    assert_eq!(
        parse_iv_hex("0xZZ000000000000000000000000000000").unwrap_err(),
        "IV hex inválido: invalid digit found in string"
    );
    assert_eq!(
        parse_iv_hex("+f+f+f+f+f+f+f+f+f+f+f+f+f+f+f+f").unwrap_err(),
        "IV hex inválido: invalid digit found in string"
    );
    assert!(parse_iv_hex("0x0000000000000000000000000000000g").is_err());
    let iv = parse_iv_hex("000102030405060708090a0b0c0d0e0f").unwrap();
    assert_eq!(iv[10], 10);
    assert_eq!(parse_iv_hex("0X000102030405060708090A0B0C0D0E0F").unwrap(), iv);
}

#[test]
fn key_must_have_sixteen_bytes() {
    assert_eq!(key_from_bytes(&[1u8; 16]).unwrap(), [1u8; 16]);
    assert_eq!(key_from_bytes(&[1u8; 15]).unwrap_err(), "Chave inválida: esperado 16 bytes, recebeu 15");
}

#[test]
fn bad_padding_is_an_error() {
    let data = [0u8; 16];
    let r = decrypt_aes128_cbc(&data, &[0u8; 16], &[0u8; 16]);
    assert_eq!(r.unwrap_err(), "Erro AES: Unpad Error");
    let r = decrypt_aes128_cbc(&[0u8; 10], &[0u8; 16], &[0u8; 16]);
    assert!(r.is_err());
}

#[test]
fn segment_names_and_kinds() {
    assert_eq!(segment_file_name(0), "seg_000000.ts");
    assert_eq!(segment_file_name(1234567), "seg_1234567.ts");
    let mut moof = Vec::new();
    moof.extend_from_slice(&8u32.to_be_bytes());
    moof.extend_from_slice(b"moof");
    assert!(!is_fmp4_segment(&moof));
    assert!(!is_ts_segment(&moof));
    assert_eq!(parse_mp4_boxes(&moof).len(), 1);
    let mut seg = moof.clone();
    seg.extend_from_slice(&8u32.to_be_bytes());
    seg.extend_from_slice(b"mdat");
    assert!(is_fmp4_segment(&seg));
    assert!(parse_mp4_boxes(&[0, 0, 0]).is_empty());
}

#[test]
fn url_helpers() {
    let rel: Vec<char> = "../seg.ts".chars().collect();
    assert_eq!(resolve_url("https://a.com/x/y/index.m3u8", &rel), "https://a.com/x/seg.ts");
    let abs: Vec<char> = "https://b.com/s.ts".chars().collect();
    assert_eq!(resolve_url("https://a.com/x/", &abs), "https://b.com/s.ts");
    assert_eq!(host_of("https://Sub.Example.com:8080/p"), Some("sub.example.com".to_string()));
    assert_eq!(host_of("not a url"), None);
}

#[test]
fn files_to_concatenate() {
    assert_eq!(
        concat_file_names(2, &OutputFormat::FragmentedMp4),
        vec!["init.mp4".to_string(), "seg_000000.ts".to_string(), "seg_000001.ts".to_string()]
    );
    assert_eq!(concat_file_names(1, &OutputFormat::TransportStream), vec!["seg_000000.ts".to_string()]);
    assert!(concat_file_names(0, &OutputFormat::TransportStream).is_empty());
    let h = CapturedHeaders::default();
    assert!(h.headers.is_empty() && h.referer.is_none() && h.origin.is_none());
}

#[test]
fn boxes_lie_end_to_end() {
    let mut data = Vec::new();
    data.extend_from_slice(&16u32.to_be_bytes());
    data.extend_from_slice(b"ftyp");
    data.extend_from_slice(&[0u8; 8]);
    data.extend_from_slice(&0u32.to_be_bytes());
    data.extend_from_slice(b"mdat");
    data.extend_from_slice(&[1u8; 12]);
    let boxes = parse_mp4_boxes(&data);
    assert_eq!(boxes.len(), 2);
    assert_eq!((boxes[0].offset, boxes[0].size), (0, 16));
    assert_eq!((boxes[1].offset, boxes[1].size), (16, 20));
    assert_eq!(boxes[1].box_type, "mdat");
    assert_eq!(boxes[1].offset + boxes[1].size, data.len());
}

#[test]
fn total_duration_is_the_sum_of_segments() {
    let body = "#EXTM3U\n#EXTINF:2.5,\na.ts\n#EXTINF:0.25,\nb.ts\n#EXTINF:10,\nc.ts\n";
    let (segs, _, total) = parse_media_playlist(body, "https://e.com/p/");
    let sum: u64 = segs.iter().map(|s| s.duration_us).sum();
    assert_eq!(sum, 12_750_000);
    assert_eq!(total, sum);
}

#[test]
fn segments_are_numbered_in_order() {
    let body = "#EXTM3U\n#EXTINF:1,\n  a.ts  \n# comment\n\n#EXTINF:1,\nb.ts\n#EXTINF:1,\nc.ts\n";
    let (segs, _, _) = parse_media_playlist(body, "https://e.com/p/");
    let seqs: Vec<u64> = segs.iter().map(|s| s.sequence).collect();
    assert_eq!(seqs, vec![0, 1, 2]);
    assert_eq!(segs[0].url, "https://e.com/p/a.ts");
}

fn extinf_of(value: &str) -> u64 {
    let body = format!("#EXTM3U\n#EXTINF:{},\nseg.ts\n", value);
    let (segs, _, _) = parse_media_playlist(&body, "https://e.com/p/");
    assert_eq!(segs.len(), 1);
    segs[0].duration_us
}

#[test]
fn extinf_reads_float_syntax() {
    assert_eq!(extinf_of("1e1"), 10_000_000);
    assert_eq!(extinf_of("2.5E-1"), 250_000);
    assert_eq!(extinf_of("+.5"), 500_000);
    assert_eq!(extinf_of("1."), 1_000_000);
    assert_eq!(extinf_of("0.0000015"), 1);
    assert_eq!(extinf_of("15e-7"), 1);
    assert_eq!(extinf_of("1e-7"), 0);
    assert_eq!(extinf_of("3e+0"), 3_000_000);
}

#[test]
fn extinf_infinite_and_huge_values_saturate() {
    assert_eq!(extinf_of("inf"), u64::MAX);
    assert_eq!(extinf_of("Infinity"), u64::MAX);
    assert_eq!(extinf_of("12e400"), u64::MAX);
    assert_eq!(extinf_of("0e400"), 0);
    assert_eq!(extinf_of("99999999999999999999"), u64::MAX);
}

#[test]
fn extinf_negative_nan_and_garbage_read_zero() {
    assert_eq!(extinf_of("-5"), 0);
    assert_eq!(extinf_of("-inf"), 0);
    assert_eq!(extinf_of("NaN"), 0);
    assert_eq!(extinf_of("1e"), 0);
    assert_eq!(extinf_of("."), 0);
    assert_eq!(extinf_of("1.2.3"), 0);
    assert_eq!(extinf_of("abc"), 0);
    assert_eq!(extinf_of(""), 0);
}
