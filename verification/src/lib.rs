//! Verified core of a HLS video downloader: playlist parsing, stream
//! detection, segment decryption helpers and course organisation.
pub mod text;
pub mod types;
pub mod urls;
pub mod m3u8;
pub mod seconds;
pub mod crypto;
pub mod sniffer;
pub mod remux;
pub mod config;
pub mod patterns;
pub mod downloader;
pub mod extractors;
pub mod ffmpeg;
pub mod chrome;
pub mod course;
pub mod callback;
pub mod browser;
pub mod commands;
