use aes::cipher::{BlockEncryptMut, KeyIvInit};
use vidownload::crypto::{decrypt_aes128_cbc, iv_from_sequence, parse_iv_hex};
use vidownload::m3u8::{parse_master_playlist, parse_media_playlist};
use vidownload::remux::{is_ts_segment, is_valid_fmp4_init, parse_mp4_boxes};
use vidownload::sniffer::{
    is_stream_content_type, is_stream_url, is_stream_url_pattern, DetectedStream, SnifferState,
};

#[test]
fn test_iv_from_sequence() {
    let iv = iv_from_sequence(0);
    assert_eq!(iv, [0u8; 16]);

    let iv = iv_from_sequence(1);
    assert_eq!(iv[15], 1);
    assert_eq!(iv[14], 0);

    let iv = iv_from_sequence(256);
    assert_eq!(iv[14], 1);
    assert_eq!(iv[15], 0);
}

#[test]
fn test_parse_iv_hex() {
    let iv = parse_iv_hex("0x00000000000000000000000000000001").unwrap();
    assert_eq!(iv[15], 1);

    let iv = parse_iv_hex("0xFFFFFFFFFFFFFFFFFFFFFFFFFFFFFFFF").unwrap();
    assert_eq!(iv, [0xFF; 16]);
}

#[test]
fn test_decrypt_aes128_cbc() {
    type Aes128CbcEnc = cbc::Encryptor<aes::Aes128>;

    let key = [0u8; 16];
    let iv = [0u8; 16];

    let plaintext = b"Hello AES-128!!!";
    let mut buf = [0u8; 32];
    buf[..16].copy_from_slice(plaintext);

    let encryptor = Aes128CbcEnc::new(&key.into(), &iv.into());
    let encrypted = encryptor
        .encrypt_padded_mut::<aes::cipher::block_padding::Pkcs7>(&mut buf, 16)
        .unwrap();

    let decrypted = decrypt_aes128_cbc(encrypted, &key, &iv).unwrap();
    assert_eq!(&decrypted, plaintext);
}

#[test]
fn test_parse_master_playlist() {
    let content = "#EXTM3U
#EXT-X-STREAM-INF:BANDWIDTH=1280000,RESOLUTION=1280x720,CODECS=\"avc1.64001f,mp4a.40.2\"
720p.m3u8
#EXT-X-STREAM-INF:BANDWIDTH=2560000,RESOLUTION=1920x1080,CODECS=\"avc1.640028,mp4a.40.2\"
1080p.m3u8
#EXT-X-STREAM-INF:BANDWIDTH=640000,RESOLUTION=640x360,CODECS=\"avc1.4d401e,mp4a.40.2\"
360p.m3u8
";

    let streams = parse_master_playlist(content, "https://example.com/video/master.m3u8");

    assert_eq!(streams.len(), 3);
    assert_eq!(streams[0].quality, "1080p");
    assert_eq!(streams[0].bandwidth, 2560000);
    assert!(streams[0].url.ends_with("1080p.m3u8"));

    assert_eq!(streams[1].quality, "720p");
    assert_eq!(streams[2].quality, "360p");
}

#[test]
fn test_parse_media_playlist() {
    let content = "#EXTM3U
#EXT-X-TARGETDURATION:10
#EXT-X-MEDIA-SEQUENCE:0
#EXTINF:9.009,
segment0.ts
#EXTINF:9.009,
segment1.ts
#EXTINF:3.003,
segment2.ts
#EXT-X-ENDLIST
";

    let (segments, encrypted, duration_us) =
        parse_media_playlist(content, "https://cdn.example.com/video/");

    assert_eq!(segments.len(), 3);
    assert!(!encrypted);
    assert!((duration_us as f64 / 1_000_000.0 - 21.021).abs() < 0.01);
    assert_eq!(segments[0].sequence, 0);
    assert!(segments[0].url.contains("segment0.ts"));
}

#[test]
fn test_parse_encrypted_playlist() {
    let content = "#EXTM3U
#EXT-X-KEY:METHOD=AES-128,URI=\"key.bin\",IV=0x00000000000000000000000000000001
#EXTINF:10.0,
enc_seg0.ts
#EXTINF:10.0,
enc_seg1.ts
";

    let (segments, encrypted, _) = parse_media_playlist(content, "https://cdn.example.com/video/");

    assert!(encrypted);
    assert_eq!(segments.len(), 2);
    let key = segments[0].key.as_ref().unwrap();
    assert_eq!(key.method, "AES-128");
    assert!(key.uri.contains("key.bin"));
    assert!(key.iv.is_some());
}

#[test]
fn test_parse_mp4_boxes() {
    let mut data = Vec::new();
    data.extend_from_slice(&20u32.to_be_bytes());
    data.extend_from_slice(b"ftyp");
    data.extend_from_slice(b"isom");
    data.extend_from_slice(&0u32.to_be_bytes());
    data.extend_from_slice(b"isom");

    data.extend_from_slice(&8u32.to_be_bytes());
    data.extend_from_slice(b"free");

    let boxes = parse_mp4_boxes(&data);
    assert_eq!(boxes.len(), 2);
    assert_eq!(boxes[0].box_type, "ftyp");
    assert_eq!(boxes[0].size, 20);
    assert_eq!(boxes[1].box_type, "free");
    assert_eq!(boxes[1].size, 8);
}

#[test]
fn test_is_ts_segment() {
    let mut ts_data = vec![0u8; 376];
    ts_data[0] = 0x47;
    ts_data[188] = 0x47;
    assert!(is_ts_segment(&ts_data));

    let non_ts = vec![0u8; 376];
    assert!(!is_ts_segment(&non_ts));
}

#[test]
fn test_is_valid_fmp4() {
    let mut data = Vec::new();
    data.extend_from_slice(&20u32.to_be_bytes());
    data.extend_from_slice(b"ftyp");
    data.extend_from_slice(b"isom");
    data.extend_from_slice(&0u32.to_be_bytes());
    data.extend_from_slice(b"isom");
    data.extend_from_slice(&8u32.to_be_bytes());
    data.extend_from_slice(b"moov");

    assert!(is_valid_fmp4_init(&data));
}

#[test]
fn test_is_stream_content_type() {
    assert!(is_stream_content_type("application/x-mpegurl"));
    assert!(is_stream_content_type("Application/vnd.apple.mpegURL"));
    assert!(is_stream_content_type("video/mp2t"));
    assert!(is_stream_content_type("application/dash+xml"));
    assert!(!is_stream_content_type("text/html"));
    assert!(!is_stream_content_type("application/json"));
}

#[test]
fn test_is_stream_url() {
    assert!(is_stream_url("https://cdn.example.com/video/master.m3u8"));
    assert!(is_stream_url("https://cdn.example.com/video/seg001.ts"));
    assert!(is_stream_url("https://cdn.example.com/video/init.m4s"));
    assert!(is_stream_url("https://cdn.example.com/video/manifest.mpd"));
    assert!(is_stream_url("https://cdn.example.com/video/chunk.m3u8?token=abc"));
    assert!(!is_stream_url("https://example.com/page.html"));
    assert!(!is_stream_url("https://example.com/script.js"));
}

#[test]
fn test_is_stream_url_pattern() {
    assert!(is_stream_url_pattern("https://cdn.example.com/hls/master.m3u"));
    assert!(is_stream_url_pattern("https://cdn.example.com/video/playlist.m3u8"));
    assert!(!is_stream_url_pattern("https://example.com/index.html"));
}

#[test]
fn test_sniffer_dedup() {
    let mut sniffer = SnifferState::default();
    let stream = DetectedStream {
        url: "https://example.com/video.m3u8".to_string(),
        content_type: Some("application/x-mpegurl".to_string()),
        source: "content-type".to_string(),
        headers: Vec::new(),
        timestamp: 0,
    };

    assert!(sniffer.register(stream.duplicate()));
    assert!(!sniffer.register(stream.duplicate()));
    assert_eq!(sniffer.get_all().len(), 1);
}
