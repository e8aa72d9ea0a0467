//! Data types of streams, segments and downloads, with their views.
//!
//! Durations are kept in whole microseconds (`u64`), the precision that the
//! playlist parser reads from the decimal text of `#EXTINF`.
use vstd::prelude::*;

verus! {

/// View of an optional text.
pub open spec fn opt_view(o: Option<String>) -> Option<Seq<char>> {
    match o {
        Some(s) => Some(s@),
        None => None,
    }
}

/// A copy of an optional text.
pub fn copy_opt(o: &Option<String>) -> (r: Option<String>)
    ensures
        opt_view(r) == opt_view(*o),
{
    match o {
        Some(s) => Some(s.clone()),
        None => None,
    }
}

/// `#EXT-X-BYTERANGE`: `length` bytes from `offset`.
#[derive(Clone, Copy, Debug, PartialEq, Eq)]
pub struct ByteRange {
    pub length: u64,
    pub offset: u64,
}

/// `#EXT-X-KEY` in force for a segment.
#[derive(Clone, Debug)]
pub struct EncryptionKey {
    pub method: String,
    pub uri: String,
    pub iv: Option<String>,
}

pub struct EncryptionKeyView {
    pub method: Seq<char>,
    pub uri: Seq<char>,
    pub iv: Option<Seq<char>>,
}

impl View for EncryptionKey {
    type V = EncryptionKeyView;

    open spec fn view(&self) -> EncryptionKeyView {
        EncryptionKeyView { method: self.method@, uri: self.uri@, iv: opt_view(self.iv) }
    }
}

pub open spec fn opt_key_view(k: Option<EncryptionKey>) -> Option<EncryptionKeyView> {
    match k {
        Some(k) => Some(k@),
        None => None,
    }
}

impl EncryptionKey {
    /// A copy of this key.
    pub fn duplicate(&self) -> (r: Self)
        ensures
            r@ == self@,
    {
        EncryptionKey { method: self.method.clone(), uri: self.uri.clone(), iv: copy_opt(&self.iv) }
    }
}

/// A copy of an optional key.
pub fn copy_opt_key(k: &Option<EncryptionKey>) -> (r: Option<EncryptionKey>)
    ensures
        opt_key_view(r) == opt_key_view(*k),
{
    match k {
        Some(k) => Some(k.duplicate()),
        None => None,
    }
}

/// One media segment of a playlist.
#[derive(Clone, Debug)]
pub struct Segment {
    pub url: String,
    pub duration_us: u64,
    pub sequence: u64,
    pub byte_range: Option<ByteRange>,
    pub key: Option<EncryptionKey>,
}

pub struct SegmentView {
    pub url: Seq<char>,
    pub duration_us: u64,
    pub sequence: u64,
    pub byte_range: Option<ByteRange>,
    pub key: Option<EncryptionKeyView>,
}

impl View for Segment {
    type V = SegmentView;

    open spec fn view(&self) -> SegmentView {
        SegmentView {
            url: self.url@,
            duration_us: self.duration_us,
            sequence: self.sequence,
            byte_range: self.byte_range,
            key: opt_key_view(self.key),
        }
    }
}

pub open spec fn segments_view(v: Seq<Segment>) -> Seq<SegmentView> {
    v.map_values(|s: Segment| s@)
}

/// One quality variant (or the single stream of a media playlist).
#[derive(Clone, Debug)]
pub struct StreamInfo {
    pub url: String,
    pub quality: String,
    pub bandwidth: u64,
    pub resolution: Option<String>,
    pub codecs: Option<String>,
    pub segments: Vec<Segment>,
    pub is_encrypted: bool,
    pub is_live: bool,
    pub init_segment_url: Option<String>,
    pub total_duration_us: u64,
    pub target_duration_us: u64,
    pub media_sequence: u64,
}

pub struct StreamInfoView {
    pub url: Seq<char>,
    pub quality: Seq<char>,
    pub bandwidth: u64,
    pub resolution: Option<Seq<char>>,
    pub codecs: Option<Seq<char>>,
    pub segments: Seq<SegmentView>,
    pub is_encrypted: bool,
    pub is_live: bool,
    pub init_segment_url: Option<Seq<char>>,
    pub total_duration_us: u64,
    pub target_duration_us: u64,
    pub media_sequence: u64,
}

impl View for StreamInfo {
    type V = StreamInfoView;

    open spec fn view(&self) -> StreamInfoView {
        StreamInfoView {
            url: self.url@,
            quality: self.quality@,
            bandwidth: self.bandwidth,
            resolution: opt_view(self.resolution),
            codecs: opt_view(self.codecs),
            segments: segments_view(self.segments@),
            is_encrypted: self.is_encrypted,
            is_live: self.is_live,
            init_segment_url: opt_view(self.init_segment_url),
            total_duration_us: self.total_duration_us,
            target_duration_us: self.target_duration_us,
            media_sequence: self.media_sequence,
        }
    }
}

pub open spec fn streams_view(v: Seq<StreamInfo>) -> Seq<StreamInfoView> {
    v.map_values(|s: StreamInfo| s@)
}

/// The streams found for one page or playlist.
#[derive(Clone, Debug)]
pub struct VideoFound {
    pub id: String,
    pub page_url: String,
    pub streams: Vec<StreamInfo>,
    pub title: Option<String>,
    pub best_quality_index: usize,
}

pub struct VideoFoundView {
    pub id: Seq<char>,
    pub page_url: Seq<char>,
    pub streams: Seq<StreamInfoView>,
    pub title: Option<Seq<char>>,
    pub best_quality_index: usize,
}

impl View for VideoFound {
    type V = VideoFoundView;

    open spec fn view(&self) -> VideoFoundView {
        VideoFoundView {
            id: self.id@,
            page_url: self.page_url@,
            streams: streams_view(self.streams@),
            title: opt_view(self.title),
            best_quality_index: self.best_quality_index,
        }
    }
}

/// A request to download one stream of a found video.
#[derive(Clone, Debug)]
pub struct DownloadRequest {
    pub video_id: String,
    pub stream_index: usize,
    pub output_path: String,
}

/// Phase of a download.
#[derive(Clone, Debug)]
pub enum DownloadState {
    Analyzing,
    Downloading,
    Muxing,
    Done,
    Error(String),
    Cancelled,
}

/// Headers captured with a request, to replay when downloading.
#[derive(Debug)]
pub struct CapturedHeaders {
    pub headers: Vec<(String, String)>,
    pub referer: Option<String>,
    pub origin: Option<String>,
}

impl Default for CapturedHeaders {
    fn default() -> (r: Self)
        ensures
            r.headers@.len() == 0,
            r.referer is None,
            r.origin is None,
    {
        CapturedHeaders { headers: Vec::new(), referer: None, origin: None }
    }
}

} // verus!
