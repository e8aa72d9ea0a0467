# vidownload

The core of a desktop HLS video downloader, verified with Verus.

`src/` is the library: HLS playlist parsing (`m3u8`), segment durations in microseconds
(`seconds`), what a fetched URL or
page holds (`downloader`), AES-128 segment keys and IVs (`crypto`), MP4/TS
inspection (`remux`), stream detection and its register (`sniffer`), the
Vimeo and UNIP extractors (`extractors`), the ffmpeg command line and its
progress (`ffmpeg`), the decisions of Chrome DevTools sessions (`chrome`),
whole-course listings and downloads (`course`), saved logins (`config`), the
callback server's requests (`callback`), the embedded browser (`browser`) and
the application's commands (`commands`). Calls into `url`, `regex-lite`,
`aes`/`cbc`, `base64`, `urlencoding` and `serde_json` sit behind small trusted
wrappers whose contracts name or state what those crates return.

`app/` holds what cannot be verified: HTTP requests, Chrome processes and
WebSocket sessions, ffmpeg processes, files, the local TCP server, and
serializable copies of the library's types.

`tests/` exercises the library on concrete values.

Durations are whole microseconds (`u64`), not float seconds: a negative or
`NaN` `#EXTINF` value reads as `0` and an infinite one as `u64::MAX`.

The single-stream download commands (`start_download`, `cancel_download`,
`pause_download`, `resume_download`, `get_download_progress`, `DownloadManager`,
`create_manager`) are not provided: they rest on a `download_stream` routine,
an `ActiveDownload` record and a per-stream `audio_url` that the project's
sources never define, and their progress record carries a float. Whole-course
downloads (`course`, `app/courses.rs`) are provided.
