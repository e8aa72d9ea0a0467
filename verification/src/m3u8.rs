//! HLS playlist parsing: master playlists (quality variants) and media
//! playlists (segments, keys, byte ranges, durations).
use vstd::prelude::*;
use crate::text::{
    all_digits, before_char, digit_val, is_digit, chars_of, decimal, decimal_exec, digits_value, find_char, matches_at,
    find_char_from, find_from_exec, line_ranges, trimmed, contains, contains_str, trim_start, is_ws_exec, lemma_find_from, lines, parse_u64, parse_u64_exec, push_str,
    slice_chars, starts_with, starts_with_str, string_of, suffix, trim,
};
use crate::types::{
    copy_opt_key, opt_key_view, segments_view, streams_view, ByteRange, EncryptionKey, EncryptionKeyView,
    Segment, SegmentView, StreamInfo, StreamInfoView,
};
use crate::urls::{joined_url, join_url};
use crate::seconds::{seconds_us, seconds_us_exec};

verus! {

// ---------------------------------------------------------------------------
// Specifications
// ---------------------------------------------------------------------------

/// `NAME=` starts an attribute at `i`: at the start of the list or right
/// after a comma (so `BANDWIDTH=` is not found inside `AVERAGE-BANDWIDTH=`).
pub open spec fn attr_starts_at(attrs: Seq<char>, search: Seq<char>, i: int) -> bool {
    matches_at(attrs, search, i) && (i == 0 || attrs[i - 1] == ',')
}

/// First index at or after `i` where the attribute `search` (`NAME=`) starts.
pub open spec fn attr_start_from(attrs: Seq<char>, search: Seq<char>, i: int) -> Option<int>
    decreases attrs.len() + 1 - i,
{
    if i < 0 || i + search.len() > attrs.len() {
        None
    } else if attr_starts_at(attrs, search, i) {
        Some(i)
    } else {
        attr_start_from(attrs, search, i + 1)
    }
}

/// `extract_attr(attrs, name)`: the value of the attribute `NAME` in an
/// attribute list (the name matched whole), quoted (`NAME="v"`) or up to
/// the next comma.
pub open spec fn attr_value(attrs: Seq<char>, name: Seq<char>) -> Option<Seq<char>> {
    let search = name.push('=');
    match attr_start_from(attrs, search, 0) {
        None => None,
        Some(start) => {
            let rest = attrs.skip(start + search.len());
            if rest.len() > 0 && rest[0] == '"' {
                match find_char(rest.skip(1), '"') {
                    Some(end) => Some(rest.subrange(1, end + 1)),
                    None => None,
                }
            } else {
                Some(before_char(rest, ','))
            }
        },
    }
}

/// `resolve_url(base, relative)`: absolute `http(s)` URLs stay as they are;
/// others are joined onto `base`, falling back to `relative` itself.
pub open spec fn resolved(base: Seq<char>, relative: Seq<char>) -> Seq<char> {
    if starts_with(relative, "http://"@) || starts_with(relative, "https://"@) {
        relative
    } else {
        match joined_url(base, relative) {
            Some(u) => u,
            None => relative,
        }
    }
}

/// `format_quality(resolution, bandwidth)`: `"1920x1080"` gives `"1080p"`.
pub open spec fn quality_label(resolution: Seq<char>, bandwidth: u64) -> Seq<char> {
    match find_char(resolution, 'x') {
        Some(i) => before_char(resolution.skip(i + 1), 'x') + "p"@,
        None => kbps_label(bandwidth),
    }
}

/// `"{bandwidth / 1000}kbps"`.
pub open spec fn kbps_label(bandwidth: u64) -> Seq<char> {
    decimal((bandwidth / 1000) as nat) + "kbps"@
}

/// `parse_byte_range("length@offset")`.
pub open spec fn byte_range_of(s: Seq<char>) -> Option<ByteRange> {
    match parse_u64(before_char(s, '@')) {
        None => None,
        Some(length) => {
            let offset = match find_char(s, '@') {
                Some(i) => match parse_u64(before_char(s.skip(i + 1), '@')) {
                    Some(o) => o,
                    None => 0,
                },
                None => 0,
            };
            Some(ByteRange { length, offset })
        },
    }
}

/// Duration of `#EXTINF:<d>[,title]` in microseconds: the seconds before the
/// first comma as `f64::from_str` reads them (see [`seconds_us`]).
pub open spec fn extinf_us(after_tag: Seq<char>) -> u64 {
    seconds_us(before_char(after_tag, ','))
}

pub open spec fn sat_add(a: u64, b: u64) -> u64 {
    if a + b > u64::MAX {
        u64::MAX
    } else {
        (a + b) as u64
    }
}

/// What a media playlist has read so far.
pub struct MediaState {
    pub segments: Seq<SegmentView>,
    pub key: Option<EncryptionKeyView>,
    pub sequence: u64,
    pub duration_us: u64,
    pub byte_range: Option<ByteRange>,
    pub encrypted: bool,
    pub total_us: u64,
}

pub open spec fn media_start() -> MediaState {
    MediaState {
        segments: seq![],
        key: None,
        sequence: 0,
        duration_us: 0,
        byte_range: None,
        encrypted: false,
        total_us: 0,
    }
}

pub open spec fn unwrap_or_empty(o: Option<Seq<char>>) -> Seq<char> {
    match o {
        Some(s) => s,
        None => seq![],
    }
}

/// Effect of one line of a media playlist.
pub open spec fn media_step(st: MediaState, raw: Seq<char>, base: Seq<char>) -> MediaState {
    media_line(st, trim(raw), base)
}

/// Effect of one trimmed line of a media playlist.
pub open spec fn media_line(st: MediaState, line: Seq<char>, base: Seq<char>) -> MediaState {
    if starts_with(line, "#EXT-X-MEDIA-SEQUENCE:"@) {
        match parse_u64(line.skip(22)) {
            Some(v) => MediaState { sequence: v, ..st },
            None => st,
        }
    } else if starts_with(line, "#EXT-X-KEY:"@) {
        let attrs = line.skip(11);
        let method = unwrap_or_empty(attr_value(attrs, "METHOD"@));
        if method == "NONE"@ {
            MediaState { key: None, ..st }
        } else {
            let uri = unwrap_or_empty(attr_value(attrs, "URI"@));
            let key = EncryptionKeyView {
                method,
                uri: resolved(base, uri),
                iv: attr_value(attrs, "IV"@),
            };
            MediaState { key: Some(key), encrypted: true, ..st }
        }
    } else if starts_with(line, "#EXTINF:"@) {
        MediaState { duration_us: extinf_us(line.skip(8)), ..st }
    } else if starts_with(line, "#EXT-X-BYTERANGE:"@) {
        MediaState { byte_range: byte_range_of(line.skip(17)), ..st }
    } else if line.len() > 0 && !starts_with(line, "#"@) {
        let seg = SegmentView {
            url: resolved(base, line),
            duration_us: st.duration_us,
            sequence: st.sequence,
            byte_range: st.byte_range,
            key: st.key,
        };
        MediaState {
            segments: st.segments.push(seg),
            sequence: (if st.sequence == u64::MAX {
                0
            } else {
                (st.sequence + 1) as u64
            }),
            duration_us: 0,
            byte_range: None,
            total_us: sat_add(st.total_us, st.duration_us),
            ..st
        }
    } else {
        st
    }
}

/// Reads `ls` in order from state `st`.
pub open spec fn media_fold(ls: Seq<Seq<char>>, st: MediaState, base: Seq<char>) -> MediaState
    decreases ls.len(),
{
    if ls.len() == 0 {
        st
    } else {
        media_fold(ls.drop_first(), media_step(st, ls[0], base), base)
    }
}

/// The state after reading every line of `content`.
pub open spec fn media_playlist(content: Seq<char>, base: Seq<char>) -> MediaState {
    media_fold(lines(content), media_start(), base)
}

/// Sum of the segments' durations, saturating at `u64::MAX`.
pub open spec fn durations_sum(segs: Seq<SegmentView>) -> u64
    decreases segs.len(),
{
    if segs.len() == 0 {
        0
    } else {
        sat_add(durations_sum(segs.drop_last()), segs.last().duration_us)
    }
}

proof fn lemma_media_fold_total(ls: Seq<Seq<char>>, st: MediaState, base: Seq<char>)
    requires
        st.total_us == durations_sum(st.segments),
    ensures
        media_fold(ls, st, base).total_us == durations_sum(media_fold(ls, st, base).segments),
    decreases ls.len(),
{
    if ls.len() > 0 {
        let next = media_step(st, ls[0], base);
        if next.segments != st.segments {
            assert(next.segments.drop_last() == st.segments);
        }
        lemma_media_fold_total(ls.drop_first(), next, base);
    }
}

/// Law: the total duration of a media playlist is the sum of the durations
/// of its segments (saturating at `u64::MAX` microseconds).
pub proof fn lemma_total_is_sum_of_segments(content: Seq<char>, base: Seq<char>)
    ensures
        media_playlist(content, base).total_us == durations_sum(media_playlist(content, base).segments),
{
    lemma_media_fold_total(lines(content), media_start(), base);
}

proof fn lemma_attr_skip(attrs: Seq<char>, search: Seq<char>, p: int, j: int)
    requires
        0 <= p <= j,
        forall|k: int| p <= k < j ==> !matches_at(attrs, search, k),
    ensures
        attr_start_from(attrs, search, p) == attr_start_from(attrs, search, j)
            || (attr_start_from(attrs, search, p) is None && j + search.len() > attrs.len()),
    decreases j - p,
{
    if p < j {
        lemma_attr_skip(attrs, search, p + 1, j);
    }
}

proof fn lemma_attr_start(attrs: Seq<char>, search: Seq<char>, i: int)
    requires
        0 <= i,
    ensures
        attr_start_from(attrs, search, i) matches Some(j) ==> i <= j && attr_starts_at(attrs, search, j),
    decreases attrs.len() + 1 - i,
{
    if i + search.len() <= attrs.len() && !attr_starts_at(attrs, search, i) {
        lemma_attr_start(attrs, search, i + 1);
    }
}

/// A line that names a segment: not empty and not a tag or comment, once trimmed.
pub open spec fn is_uri_line(raw: Seq<char>) -> bool {
    trim(raw).len() > 0 && !starts_with(trim(raw), "#"@)
}

/// How many lines name a segment.
pub open spec fn uri_count(ls: Seq<Seq<char>>) -> nat
    decreases ls.len(),
{
    if ls.len() == 0 {
        0
    } else {
        (if is_uri_line(ls[0]) { 1nat } else { 0nat }) + uri_count(ls.drop_first())
    }
}

/// No line sets the media sequence.
pub open spec fn no_sequence_tag(ls: Seq<Seq<char>>) -> bool {
    forall|i: int| 0 <= i < ls.len() ==> !starts_with(trim(#[trigger] ls[i]), "#EXT-X-MEDIA-SEQUENCE:"@)
}

proof fn lemma_hash_prefix(line: Seq<char>, tag: Seq<char>)
    requires
        tag.len() > 0,
        tag[0] == '#',
    ensures
        starts_with(line, tag) ==> starts_with(line, "#"@),
{
    reveal_strlit("#");
    if starts_with(line, tag) {
        assert(line.subrange(0, tag.len() as int)[0] == line[0]);
        assert(line.subrange(0, 1) =~= "#"@);
    }
}

proof fn lemma_tag_is_comment(line: Seq<char>)
    ensures
        starts_with(line, "#EXT-X-MEDIA-SEQUENCE:"@) ==> starts_with(line, "#"@),
        starts_with(line, "#EXT-X-KEY:"@) ==> starts_with(line, "#"@),
        starts_with(line, "#EXTINF:"@) ==> starts_with(line, "#"@),
        starts_with(line, "#EXT-X-BYTERANGE:"@) ==> starts_with(line, "#"@),
{
    reveal_strlit("#EXT-X-MEDIA-SEQUENCE:");
    reveal_strlit("#EXT-X-KEY:");
    reveal_strlit("#EXTINF:");
    reveal_strlit("#EXT-X-BYTERANGE:");
    lemma_hash_prefix(line, "#EXT-X-MEDIA-SEQUENCE:"@);
    lemma_hash_prefix(line, "#EXT-X-KEY:"@);
    lemma_hash_prefix(line, "#EXTINF:"@);
    lemma_hash_prefix(line, "#EXT-X-BYTERANGE:"@);
}

proof fn lemma_media_fold_numbering(ls: Seq<Seq<char>>, st: MediaState, base: Seq<char>)
    requires
        no_sequence_tag(ls),
        st.sequence == st.segments.len(),
        forall|k: int| 0 <= k < st.segments.len() ==> (#[trigger] st.segments[k]).sequence == k,
        st.segments.len() + uri_count(ls) <= u64::MAX,
    ensures
        media_fold(ls, st, base).segments.len() == st.segments.len() + uri_count(ls),
        forall|k: int| 0 <= k < media_fold(ls, st, base).segments.len() ==> (#[trigger] media_fold(
            ls,
            st,
            base,
        ).segments[k]).sequence == k,
    decreases ls.len(),
{
    if ls.len() > 0 {
        let line = trim(ls[0]);
        lemma_tag_is_comment(line);
        assert(!starts_with(trim(ls[0]), "#EXT-X-MEDIA-SEQUENCE:"@));
        let next = media_step(st, ls[0], base);
        let rest = ls.drop_first();
        assert forall|i: int| 0 <= i < rest.len() implies !starts_with(trim(#[trigger] rest[i]), "#EXT-X-MEDIA-SEQUENCE:"@) by {
            assert(rest[i] == ls[i + 1]);
        }
        if is_uri_line(ls[0]) {
            assert(next.segments.len() == st.segments.len() + 1);
            assert forall|k: int| 0 <= k < next.segments.len() implies (#[trigger] next.segments[k]).sequence == k by {
                if k < st.segments.len() {
                    assert(next.segments[k] == st.segments[k]);
                }
            }
        } else {
            assert(next.segments == st.segments);
        }
        lemma_media_fold_numbering(rest, next, base);
    }
}

/// Law: a media playlist gives one segment per line that names one, and
/// without a `#EXT-X-MEDIA-SEQUENCE` tag the segments are numbered 0, 1, 2,
/// … in order (each one more than the previous). The count is bounded by
/// `u64::MAX` so that numbers do not wrap.
pub proof fn lemma_segments_numbered(content: Seq<char>, base: Seq<char>)
    requires
        uri_count(lines(content)) <= u64::MAX,
    ensures
        no_sequence_tag(lines(content)) ==> media_playlist(content, base).segments.len() == uri_count(lines(content)),
        no_sequence_tag(lines(content)) ==> forall|k: int| 0 <= k < media_playlist(content, base).segments.len()
            ==> (#[trigger] media_playlist(content, base).segments[k]).sequence == k,
{
    if no_sequence_tag(lines(content)) {
        lemma_media_fold_numbering(lines(content), media_start(), base);
    }
}

/// Law: a `#EXT-X-KEY` line with a METHOD other than `NONE` and a URI
/// attribute `u` sets a key whose address is `u` resolved against the
/// playlist address, exactly as a segment line reading `u` would be
/// resolved; and the next segment line carries that key.
pub proof fn lemma_key_uri_resolved(st: MediaState, line: Seq<char>, base: Seq<char>, u: Seq<char>, seg_line: Seq<char>)
    requires
        starts_with(line, "#EXT-X-KEY:"@),
        attr_value(line.skip(11), "METHOD"@) != Some("NONE"@),
        attr_value(line.skip(11), "URI"@) == Some(u),
        seg_line.len() > 0,
        !starts_with(seg_line, "#"@),
    ensures
        media_line(st, line, base).key is Some,
        media_line(st, line, base).key->0.uri == resolved(base, u),
        media_line(st, line, base).key->0.iv == attr_value(line.skip(11), "IV"@),
        match attr_value(line.skip(11), "METHOD"@) {
            Some(m) => media_line(st, line, base).key->0.method == m,
            None => media_line(st, line, base).key->0.method.len() == 0,
        },
        media_line(st, line, base).encrypted,
        media_line(media_line(st, line, base), seg_line, base).segments.last().key == media_line(st, line, base).key,
        media_line(media_line(st, line, base), seg_line, base).segments.last().url == resolved(base, seg_line),
        u.len() > 0 && !starts_with(u, "#"@) ==> media_line(st, line, base).key->0.uri == media_line(
            st,
            u,
            base,
        ).segments.last().url,
{
    reveal_strlit("#EXT-X-MEDIA-SEQUENCE:");
    reveal_strlit("#EXT-X-KEY:");
    reveal_strlit("NONE");
    assert(line[7] == "#EXT-X-KEY:"@[7]) by {
        assert(line.subrange(0, 11)[7] == line[7]);
    }
    assert(!starts_with(line, "#EXT-X-MEDIA-SEQUENCE:"@)) by {
        if starts_with(line, "#EXT-X-MEDIA-SEQUENCE:"@) {
            assert(line.subrange(0, 22)[7] == line[7]);
        }
    }
    if attr_value(line.skip(11), "METHOD"@) is None {
        assert(unwrap_or_empty(attr_value(line.skip(11), "METHOD"@)).len() == 0);
    }
    lemma_tag_is_comment(seg_line);
    lemma_tag_is_comment(u);
}

/// What a variant reports of the `#EXT-X-STREAM-INF:` attribute list
/// `attrs` that describes it and of its URI line `uri`: the `RESOLUTION`
/// attribute as it is written, the `BANDWIDTH` attribute (0 when missing or
/// not a number), the `CODECS` attribute, the URI resolved against the
/// playlist address, and a quality label taken from the resolution's height
/// when there is one and from the bandwidth when there is none.
pub open spec fn describes_variant(v: StreamInfoView, attrs: Seq<char>, uri: Seq<char>, base: Seq<char>) -> bool {
    &&& v.resolution == attr_value(attrs, "RESOLUTION"@)
    &&& v.codecs == attr_value(attrs, "CODECS"@)
    &&& v.url == resolved(base, uri)
    &&& v.bandwidth == match attr_value(attrs, "BANDWIDTH"@) {
        Some(b) => match parse_u64(b) {
            Some(n) => n,
            None => 0u64,
        },
        None => 0u64,
    }
    &&& match v.resolution {
        Some(r) => v.quality == quality_label(r, v.bandwidth),
        None => v.quality == kbps_label(v.bandwidth),
    }
}

/// Law: the variant built from an attribute list and a URI line is the one
/// they describe (see [`describes_variant`]).
pub proof fn lemma_variant_of_describes(attrs: Seq<char>, uri: Seq<char>, base: Seq<char>)
    ensures
        describes_variant(variant_of(attrs, uri, base), attrs, uri, base),
{
}

/// Line `i` of `ls` is an `#EXT-X-STREAM-INF:` line, line `j` after it is
/// its URI line, and together they describe the variant `v`.
pub open spec fn described_by_lines(v: StreamInfoView, ls: Seq<Seq<char>>, i: int, j: int, base: Seq<char>) -> bool {
    &&& 0 <= i < j < ls.len()
    &&& starts_with(trim(ls[i]), "#EXT-X-STREAM-INF:"@)
    &&& describes_variant(v, trim(ls[i]).skip(18), trim(ls[j]), base)
}

proof fn lemma_variants_from_lines(ls: Seq<Seq<char>>, i0: int, base: Seq<char>, k: int)
    requires
        0 <= i0,
        0 <= k < variants_from(ls, i0, base).len(),
    ensures
        exists|i: int, j: int| i0 <= i && #[trigger] described_by_lines(variants_from(ls, i0, base)[k], ls, i, j, base),
    decreases ls.len() - i0,
{
    if i0 < ls.len() {
        if starts_with(trim(ls[i0]), "#EXT-X-STREAM-INF:"@) {
            let j = next_uri_line(ls, i0 + 1);
            lemma_next_uri_line(ls, i0 + 1);
            if j < ls.len() {
                let head = variant_of(trim(ls[i0]).skip(18), trim(ls[j]), base);
                let rest = variants_from(ls, j + 1, base);
                assert(variants_from(ls, i0, base) == seq![head] + rest);
                if k == 0 {
                    lemma_variant_of_describes(trim(ls[i0]).skip(18), trim(ls[j]), base);
                    assert(described_by_lines(variants_from(ls, i0, base)[k], ls, i0, j, base));
                } else {
                    lemma_variants_from_lines(ls, j + 1, base, k - 1);
                    assert(variants_from(ls, i0, base)[k] == rest[k - 1]);
                    let (wi, wj) = choose|i: int, j2: int|
                        j + 1 <= i && #[trigger] described_by_lines(rest[k - 1], ls, i, j2, base);
                    assert(described_by_lines(variants_from(ls, i0, base)[k], ls, wi, wj, base));
                }
            }
        } else {
            lemma_variants_from_lines(ls, i0 + 1, base, k);
            let (wi, wj) = choose|i: int, j2: int|
                i0 + 1 <= i && #[trigger] described_by_lines(variants_from(ls, i0 + 1, base)[k], ls, i, j2, base);
            assert(described_by_lines(variants_from(ls, i0, base)[k], ls, wi, wj, base));
        }
    }
}

/// Law: every variant of a master playlist is described by one of its
/// `#EXT-X-STREAM-INF:` lines and the URI line after it: its resolution is
/// that line's `RESOLUTION` attribute (present exactly when the attribute
/// is), its address the URI resolved against the playlist address, and its
/// quality label follows the resolution (see [`describes_variant`]).
pub proof fn lemma_master_variant_described(content: Seq<char>, base: Seq<char>, k: int)
    requires
        0 <= k < master_playlist(content, base).len(),
    ensures
        exists|i: int, j: int| #[trigger] described_by_lines(master_playlist(content, base)[k], lines(content), i, j, base),
{
    broadcast use vstd::seq_lib::group_to_multiset_ensures;
    let ls = lines(content);
    let v = variants_from(ls, 0, base);
    lemma_sort_by_bandwidth(v);
    let x = master_playlist(content, base)[k];
    assert(sort_by_bandwidth(v)[k] == x);
    assert(sort_by_bandwidth(v).contains(x));
    assert(sort_by_bandwidth(v).to_multiset().count(x) > 0);
    assert(v.contains(x));
    let m = choose|m: int| 0 <= m < v.len() && v[m] == x;
    lemma_variants_from_lines(ls, 0, base, m);
    let (wi, wj) = choose|i: int, j: int| 0 <= i && #[trigger] described_by_lines(v[m], ls, i, j, base);
    assert(described_by_lines(x, ls, wi, wj, base));
}

/// Index of the first line at or after `j` whose trimmed text is neither empty
/// nor a comment (`lines.len()` when there is none).
pub open spec fn next_uri_line(ls: Seq<Seq<char>>, j: int) -> int
    decreases ls.len() - j,
{
    if j >= ls.len() || j < 0 {
        ls.len() as int
    } else if trim(ls[j]).len() == 0 || starts_with(trim(ls[j]), "#"@) {
        next_uri_line(ls, j + 1)
    } else {
        j
    }
}

/// The variant described by `#EXT-X-STREAM-INF:<attrs>` and its URI line.
pub open spec fn variant_of(attrs: Seq<char>, uri: Seq<char>, base: Seq<char>) -> StreamInfoView {
    let bandwidth: u64 = match attr_value(attrs, "BANDWIDTH"@) {
        Some(v) => match parse_u64(v) {
            Some(b) => b,
            None => 0,
        },
        None => 0,
    };
    let resolution = attr_value(attrs, "RESOLUTION"@);
    StreamInfoView {
        url: resolved(base, uri),
        quality: match resolution {
            Some(r) => quality_label(r, bandwidth),
            None => kbps_label(bandwidth),
        },
        bandwidth,
        resolution,
        codecs: attr_value(attrs, "CODECS"@),
        segments: seq![],
        is_encrypted: false,
        is_live: false,
        init_segment_url: None,
        total_duration_us: 0,
        target_duration_us: 0,
        media_sequence: 0,
    }
}

/// Variants of a master playlist from line `i` on, in playlist order.
pub open spec fn variants_from(ls: Seq<Seq<char>>, i: int, base: Seq<char>) -> Seq<StreamInfoView>
    decreases ls.len() - i,
{
    if i < 0 || i >= ls.len() {
        seq![]
    } else if starts_with(trim(ls[i]), "#EXT-X-STREAM-INF:"@) {
        let j = next_uri_line(ls, i + 1);
        proof {
            lemma_next_uri_line(ls, i + 1);
        }
        if j < ls.len() {
            seq![variant_of(trim(ls[i]).skip(18), trim(ls[j]), base)] + variants_from(ls, j + 1, base)
        } else {
            seq![]
        }
    } else {
        variants_from(ls, i + 1, base)
    }
}

/// Inserts `x` after every stream whose bandwidth is at least its own.
pub open spec fn insert_by_bandwidth(s: Seq<StreamInfoView>, x: StreamInfoView) -> Seq<StreamInfoView>
    decreases s.len(),
{
    if s.len() == 0 {
        seq![x]
    } else if s.last().bandwidth >= x.bandwidth {
        s.push(x)
    } else {
        insert_by_bandwidth(s.drop_last(), x).push(s.last())
    }
}

/// Stable sort by bandwidth, highest first (`sort_by(|a, b| b.bandwidth.cmp(&a.bandwidth))`).
pub open spec fn sort_by_bandwidth(s: Seq<StreamInfoView>) -> Seq<StreamInfoView>
    decreases s.len(),
{
    if s.len() == 0 {
        s
    } else {
        insert_by_bandwidth(sort_by_bandwidth(s.drop_last()), s.last())
    }
}

/// The variants of a master playlist, best quality first.
pub open spec fn master_playlist(content: Seq<char>, base: Seq<char>) -> Seq<StreamInfoView> {
    sort_by_bandwidth(variants_from(lines(content), 0, base))
}

pub open spec fn bandwidth_desc(s: Seq<StreamInfoView>) -> bool {
    forall|i: int, j: int| 0 <= i < j < s.len() ==> s[i].bandwidth >= s[j].bandwidth
}

// ---------------------------------------------------------------------------
// Lemmas
// ---------------------------------------------------------------------------

pub proof fn lemma_next_uri_line(ls: Seq<Seq<char>>, j: int)
    requires
        0 <= j,
    ensures
        j <= next_uri_line(ls, j) <= ls.len() || (j > ls.len() && next_uri_line(ls, j) == ls.len()),
    decreases ls.len() - j,
{
    if j < ls.len() && (trim(ls[j]).len() == 0 || starts_with(trim(ls[j]), "#"@)) {
        lemma_next_uri_line(ls, j + 1);
    }
}

proof fn lemma_insert_sorted(s: Seq<StreamInfoView>, x: StreamInfoView)
    requires
        bandwidth_desc(s),
    ensures
        bandwidth_desc(insert_by_bandwidth(s, x)),
        insert_by_bandwidth(s, x).to_multiset() == s.to_multiset().insert(x),
        insert_by_bandwidth(s, x).len() == s.len() + 1,
        forall|k: int| 0 <= k < insert_by_bandwidth(s, x).len() ==> (#[trigger] insert_by_bandwidth(s, x)[k] == x || s.contains(insert_by_bandwidth(s, x)[k])),
    decreases s.len(),
{
    broadcast use vstd::seq_lib::group_seq_properties;
    if s.len() == 0 {
        assert(seq![x] == Seq::<StreamInfoView>::empty().push(x));
    } else if s.last().bandwidth >= x.bandwidth {
    } else {
        let p = s.drop_last();
        lemma_insert_sorted(p, x);
        let q = insert_by_bandwidth(p, x);
        assert(s == p.push(s.last()));
        assert forall|k: int| 0 <= k < q.len() implies q[k].bandwidth >= s.last().bandwidth by {
            if q[k] != x {
                assert(p.contains(q[k]));
                let m = choose|m: int| 0 <= m < p.len() && p[m] == q[k];
                assert(s[m] == p[m]);
            }
        }
        assert forall|k: int| 0 <= k < q.push(s.last()).len() implies (#[trigger] q.push(s.last())[k] == x || s.contains(q.push(s.last())[k])) by {
            if k < q.len() && q[k] != x {
                assert(p.contains(q[k]));
                let m = choose|m: int| 0 <= m < p.len() && p[m] == q[k];
                assert(s[m] == p[m]);
            } else if k == q.len() {
                assert(s[s.len() - 1] == s.last());
            }
        }
    }
}

/// Law: the streams of a master playlist come best bandwidth first, and they
/// are exactly the variants of the playlist (a permutation).
pub proof fn lemma_sort_by_bandwidth(s: Seq<StreamInfoView>)
    ensures
        bandwidth_desc(sort_by_bandwidth(s)),
        sort_by_bandwidth(s).to_multiset() == s.to_multiset(),
        sort_by_bandwidth(s).len() == s.len(),
    decreases s.len(),
{
    broadcast use vstd::seq_lib::group_seq_properties;
    if s.len() > 0 {
        lemma_sort_by_bandwidth(s.drop_last());
        lemma_insert_sorted(sort_by_bandwidth(s.drop_last()), s.last());
        assert(s == s.drop_last().push(s.last()));
    }
}

// ---------------------------------------------------------------------------
// Executable code
// ---------------------------------------------------------------------------

/// Whether two character strings are equal.
pub fn eq_chars(a: &Vec<char>, b: &Vec<char>) -> (r: bool)
    ensures
        r == (a@ == b@),
{
    if a.len() != b.len() {
        return false;
    }
    let mut i: usize = 0;
    while i < a.len()
        invariant
            a.len() == b.len(),
            i <= a.len(),
            forall|k: int| 0 <= k < i ==> a@[k] == b@[k],
        decreases a.len() - i,
    {
        if a[i] != b[i] {
            return false;
        }
        i += 1;
    }
    assert(a@ =~= b@);
    true
}

/// The text before the first `c` in `v` (`split(c).next()`).
pub fn before_char_exec(v: &Vec<char>, c: char) -> (r: Vec<char>)
    ensures
        r@ == before_char(v@, c),
{
    match find_char_from(v, c, 0) {
        Some(i) => {
            proof {
                lemma_find_from(v@, seq![c], 0);
            }
            slice_chars(v, 0, i)
        },
        None => slice_chars(v, 0, v.len()),
    }
}

/// Where the attribute `search` (`NAME=`) starts in `attrs`.
fn attr_start(attrs: &Vec<char>, search: &Vec<char>) -> (r: Option<usize>)
    requires
        search@.len() >= 1,
    ensures
        match r {
            Some(j) => attr_start_from(attrs@, search@, 0) == Some(j as int),
            None => attr_start_from(attrs@, search@, 0) is None,
        },
{
    let mut p: usize = 0;
    while p <= attrs.len()
        invariant
            search@.len() >= 1,
            attr_start_from(attrs@, search@, 0) == attr_start_from(attrs@, search@, p as int),
        decreases attrs@.len() + 1 - p,
    {
        match find_from_exec(attrs, search, p) {
            None => {
                proof {
                    lemma_find_from(attrs@, search@, p as int);
                    lemma_attr_skip(attrs@, search@, p as int, attrs@.len() as int + 1);
                }
                return None;
            },
            Some(j) => {
                proof {
                    lemma_find_from(attrs@, search@, p as int);
                    lemma_attr_skip(attrs@, search@, p as int, j as int);
                }
                assert(j < attrs.len());
                if j == 0 || attrs[j - 1] == ',' {
                    return Some(j);
                }
                p = j + 1;
            },
        }
    }
    None
}

/// `extract_attr(attrs, name)`.
pub fn extract_attr(attrs: &Vec<char>, name: &str) -> (r: Option<Vec<char>>)
    ensures
        match r {
            Some(v) => attr_value(attrs@, name@) == Some(v@),
            None => attr_value(attrs@, name@) is None,
        },
{
    let mut search = chars_of(name);
    search.push('=');
    let start = match attr_start(attrs, &search) {
        Some(j) => j,
        None => return None,
    };
    proof {
        lemma_attr_start(attrs@, search@, 0);
    }
    proof {
        assert(attr_start_from(attrs@, search@, 0) == Some(start as int));
        assert(matches_at(attrs@, search@, start as int));
        assert(attrs@.len() == attrs.len());
    }
    let rest = suffix(attrs, start + search.len());
    if rest.len() > 0 && rest[0] == '"' {
        let inner = suffix(&rest, 1);
        match find_char_from(&inner, '"', 0) {
            Some(end) => {
                proof {
                    lemma_find_from(inner@, seq!['"'], 0);
                }
                Some(slice_chars(&rest, 1, end + 1))
            },
            None => None,
        }
    } else {
        Some(before_char_exec(&rest, ','))
    }
}

/// `resolve_url(base, relative)`.
pub fn resolve_url(base: &str, relative: &Vec<char>) -> (r: String)
    ensures
        r@ == resolved(base@, relative@),
{
    if starts_with_str(relative, "http://") || starts_with_str(relative, "https://") {
        return string_of(relative);
    }
    let rel = string_of(relative);
    match join_url(base, rel.as_str()) {
        Some(u) => u,
        None => rel,
    }
}

/// `"{bandwidth / 1000}kbps"`.
pub fn kbps_text(bandwidth: u64) -> (r: Vec<char>)
    ensures
        r@ == kbps_label(bandwidth),
{
    let mut r = decimal_exec(bandwidth / 1000);
    push_str(&mut r, "kbps");
    r
}

/// `format_quality(resolution, bandwidth)`.
pub fn format_quality(resolution: &Vec<char>, bandwidth: u64) -> (r: Vec<char>)
    ensures
        r@ == quality_label(resolution@, bandwidth),
{
    match find_char_from(resolution, 'x', 0) {
        Some(i) => {
            proof {
                lemma_find_from(resolution@, seq!['x'], 0);
                assert(resolution@.len() == resolution.len());
            }
            let after = suffix(resolution, i + 1);
            let mut h = before_char_exec(&after, 'x');
            push_str(&mut h, "p");
            h
        },
        None => kbps_text(bandwidth),
    }
}

/// `parse_byte_range("length@offset")`.
pub fn parse_byte_range(s: &Vec<char>) -> (r: Option<ByteRange>)
    ensures
        r == byte_range_of(s@),
{
    let first = before_char_exec(s, '@');
    let length = match parse_u64_exec(&first) {
        Some(l) => l,
        None => return None,
    };
    let offset = match find_char_from(s, '@', 0) {
        Some(i) => {
            proof {
                lemma_find_from(s@, seq!['@'], 0);
                assert(s@.len() == s.len());
            }
            let after = suffix(s, i + 1);
            let second = before_char_exec(&after, '@');
            match parse_u64_exec(&second) {
                Some(o) => o,
                None => 0,
            }
        },
        None => 0,
    };
    Some(ByteRange { length, offset })
}

/// `min(value, u64::MAX)` of the digits `v[from..to]`, and whether they are all digits.
pub fn digits_saturating(v: &Vec<char>, from: usize, to: usize) -> (r: (u64, bool))
    requires
        from <= to <= v.len(),
    ensures
        r.1 == all_digits(v@.subrange(from as int, to as int)),
        r.1 ==> r.0 == (if digits_value(v@.subrange(from as int, to as int)) > u64::MAX {
            u64::MAX as nat
        } else {
            digits_value(v@.subrange(from as int, to as int))
        }),
{
    let ghost d = v@.subrange(from as int, to as int);
    let mut acc: u64 = 0;
    let mut over = false;
    let mut i = from;
    while i < to
        invariant
            from <= i <= to <= v.len(),
            d == v@.subrange(from as int, to as int),
            all_digits(d.take(i - from)),
            !over ==> acc as nat == digits_value(d.take(i - from)),
            over ==> digits_value(d.take(i - from)) > u64::MAX && acc == u64::MAX,
        decreases to - i,
    {
        let c = v[i];
        proof {
            assert(d.take(i - from + 1).drop_last() == d.take(i - from));
            assert(d[i - from] == c);
        }
        if !('0' <= c && c <= '9') {
            assert(!all_digits(d));
            return (acc, false);
        }
        let dv = (c as u32 - '0' as u32) as u64;
        assert(dv == digit_val(c));
        proof {
            assert forall|k: int| 0 <= k < d.take(i - from + 1).len() implies is_digit(#[trigger] d.take(i - from + 1)[k]) by {
                if k < i - from {
                    assert(d.take(i - from + 1)[k] == d.take(i - from)[k]);
                }
            }
        }
        if over || acc > (u64::MAX - dv) / 10 {
            proof {
                if !over {
                    assert(acc * 10 + dv > u64::MAX) by (nonlinear_arith)
                        requires
                            acc > (u64::MAX - dv) / 10,
                            dv <= 9,
                    ;
                } else {
                    assert(digits_value(d.take(i - from)) * 10 + dv > u64::MAX) by (nonlinear_arith)
                        requires
                            digits_value(d.take(i - from)) > u64::MAX,
                    ;
                }
            }
            over = true;
            acc = u64::MAX;
        } else {
            assert(acc * 10 + dv <= u64::MAX) by (nonlinear_arith)
                requires
                    acc <= (u64::MAX - dv) / 10,
                    dv <= 9,
            ;
            acc = acc * 10 + dv;
        }
        i += 1;
    }
    assert(d.take(to - from) == d);
    (acc, true)
}

/// Microseconds of the `#EXTINF` value that follows the tag (see [`extinf_us`]).
pub fn extinf_duration_us(after_tag: &Vec<char>) -> (r: u64)
    ensures
        r == extinf_us(after_tag@),
{
    let d = before_char_exec(after_tag, ',');
    seconds_us_exec(&d)
}

/// What the media-playlist reader holds between lines.
struct MediaReader {
    segments: Vec<Segment>,
    key: Option<EncryptionKey>,
    sequence: u64,
    duration_us: u64,
    byte_range: Option<ByteRange>,
    encrypted: bool,
    total_us: u64,
}

impl MediaReader {
    spec fn state(&self) -> MediaState {
        MediaState {
            segments: segments_view(self.segments@),
            key: opt_key_view(self.key),
            sequence: self.sequence,
            duration_us: self.duration_us,
            byte_range: self.byte_range,
            encrypted: self.encrypted,
            total_us: self.total_us,
        }
    }

    /// Reads one trimmed line.
    fn read_line(&mut self, line: &Vec<char>, base: &str)
        ensures
            final(self).state() == media_line(old(self).state(), line@, base@),
    {
        proof {
            reveal_strlit("#EXT-X-MEDIA-SEQUENCE:");
            reveal_strlit("#EXT-X-KEY:");
            reveal_strlit("#EXTINF:");
            reveal_strlit("#EXT-X-BYTERANGE:");
            assert(line@.len() == line.len());
        }
        if starts_with_str(line, "#EXT-X-MEDIA-SEQUENCE:") {
            let rest = suffix(line, 22);
            if let Some(v) = parse_u64_exec(&rest) {
                self.sequence = v;
            }
        } else if starts_with_str(line, "#EXT-X-KEY:") {
            let attrs = suffix(line, 11);
            let method = match extract_attr(&attrs, "METHOD") {
                Some(m) => m,
                None => Vec::new(),
            };
            let none = chars_of("NONE");
            if eq_chars(&method, &none) {
                self.key = None;
            } else {
                let uri = match extract_attr(&attrs, "URI") {
                    Some(u) => u,
                    None => Vec::new(),
                };
                let iv = match extract_attr(&attrs, "IV") {
                    Some(v) => Some(string_of(&v)),
                    None => None,
                };
                self.encrypted = true;
                self.key = Some(EncryptionKey { method: string_of(&method), uri: resolve_url(base, &uri), iv });
            }
        } else if starts_with_str(line, "#EXTINF:") {
            let rest = suffix(line, 8);
            self.duration_us = extinf_duration_us(&rest);
        } else if starts_with_str(line, "#EXT-X-BYTERANGE:") {
            let rest = suffix(line, 17);
            self.byte_range = parse_byte_range(&rest);
        } else if line.len() > 0 && !starts_with_str(line, "#") {
            let seg = Segment {
                url: resolve_url(base, line),
                duration_us: self.duration_us,
                sequence: self.sequence,
                byte_range: self.byte_range,
                key: copy_opt_key(&self.key),
            };
            self.segments.push(seg);
            proof {
                assert(segments_view(self.segments@) == segments_view(old(self).segments@).push(seg@));
            }
            self.sequence = self.sequence.wrapping_add(1);
            self.total_us = self.total_us.saturating_add(self.duration_us);
            self.duration_us = 0;
            self.byte_range = None;
        }
    }
}

/// `parse_media_playlist(content, base_url)`: the segments of a media
/// playlist, whether any of them is encrypted, and their total duration in
/// microseconds.
pub fn parse_media_playlist(content: &str, base_url: &str) -> (r: (Vec<Segment>, bool, u64))
    ensures
        segments_view(r.0@) == media_playlist(content@, base_url@).segments,
        r.1 == media_playlist(content@, base_url@).encrypted,
        r.2 == media_playlist(content@, base_url@).total_us,
{
    let cv = chars_of(content);
    let ranges = line_ranges(&cv);
    let ghost ls = lines(cv@);
    let mut rd = MediaReader {
        segments: Vec::new(),
        key: None,
        sequence: 0,
        duration_us: 0,
        byte_range: None,
        encrypted: false,
        total_us: 0,
    };
    proof {
        assert(segments_view(rd.segments@) == Seq::<SegmentView>::empty());
        assert(rd.state() == media_start());
        assert(ls.skip(0) == ls);
    }
    let mut i: usize = 0;
    while i < ranges.len()
        invariant
            ls == lines(cv@),
            cv@ == content@,
            ranges@.len() == ls.len(),
            forall|k: int| 0 <= k < ranges@.len() ==> (#[trigger] ranges@[k]).0 <= ranges@[k].1 <= cv@.len(),
            forall|k: int|
                0 <= k < ranges@.len() ==> cv@.subrange(ranges@[k].0 as int, ranges@[k].1 as int) == #[trigger] ls[k],
            i <= ranges@.len(),
            media_playlist(content@, base_url@) == media_fold(ls.skip(i as int), rd.state(), base_url@),
        decreases ranges@.len() - i,
    {
        let (a, b) = ranges[i];
        let line = trimmed(&cv, a, b);
        proof {
            let _ = ranges@[i as int];
            assert(ls.skip(i as int)[0] == ls[i as int]);
            assert(ls.skip(i as int).drop_first() == ls.skip(i + 1));
        }
        rd.read_line(&line, base_url);
        i += 1;
    }
    proof {
        assert(ls.skip(i as int).len() == 0);
    }
    (rd.segments, rd.encrypted, rd.total_us)
}

/// `is_master_playlist(content)`: the text holds a `#EXT-X-STREAM-INF:` tag.
pub fn is_master_playlist(content: &str) -> (r: bool)
    ensures
        r == contains(content@, "#EXT-X-STREAM-INF:"@),
{
    let cv = chars_of(content);
    contains_str(&cv, "#EXT-X-STREAM-INF:")
}

/// `is_m3u8(content)`: the text, after leading whitespace, starts with `#EXTM3U`.
pub fn is_m3u8(content: &str) -> (r: bool)
    ensures
        r == starts_with(trim_start(content@), "#EXTM3U"@),
{
    let cv = chars_of(content);
    let mut a: usize = 0;
    assert(cv@.skip(0) == cv@);
    while a < cv.len() && is_ws_exec(cv[a])
        invariant
            a <= cv.len(),
            cv@ == content@,
            trim_start(content@) == trim_start(cv@.skip(a as int)),
        decreases cv.len() - a,
    {
        assert(cv@.skip(a as int).drop_first() == cv@.skip(a + 1));
        a += 1;
    }
    let rest = suffix(&cv, a);
    starts_with_str(&rest, "#EXTM3U")
}

/// The variant of `#EXT-X-STREAM-INF:<attrs>` whose URI line is `uri`.
fn variant_from(attrs: &Vec<char>, uri: &Vec<char>, base: &str) -> (r: StreamInfo)
    ensures
        r@ == variant_of(attrs@, uri@, base@),
{
    let bandwidth: u64 = match extract_attr(attrs, "BANDWIDTH") {
        Some(v) => match parse_u64_exec(&v) {
            Some(b) => b,
            None => 0,
        },
        None => 0,
    };
    let resolution = extract_attr(attrs, "RESOLUTION");
    let quality = match &resolution {
        Some(res) => format_quality(res, bandwidth),
        None => kbps_text(bandwidth),
    };
    let codecs = extract_attr(attrs, "CODECS");
    let r = StreamInfo {
        url: resolve_url(base, uri),
        quality: string_of(&quality),
        bandwidth,
        resolution: match &resolution {
            Some(v) => Some(string_of(v)),
            None => None,
        },
        codecs: match &codecs {
            Some(v) => Some(string_of(v)),
            None => None,
        },
        segments: Vec::new(),
        is_encrypted: false,
        is_live: false,
        init_segment_url: None,
        total_duration_us: 0,
        target_duration_us: 0,
        media_sequence: 0,
    };
    proof {
        assert(segments_view(r.segments@) == Seq::<SegmentView>::empty());
    }
    r
}

/// Stable sort of streams by bandwidth, highest first.
pub fn sort_by_bandwidth_desc(v: Vec<StreamInfo>) -> (r: Vec<StreamInfo>)
    ensures
        streams_view(r@) == sort_by_bandwidth(streams_view(v@)),
{
    let ghost orig = streams_view(v@);
    let mut rest = v;
    let mut out: Vec<StreamInfo> = Vec::new();
    let n = rest.len();
    let mut i: usize = 0;
    proof {
        assert(orig.take(0) == Seq::<StreamInfoView>::empty());
        assert(streams_view(out@) == Seq::<StreamInfoView>::empty());
        assert(streams_view(rest@) == orig.skip(0));
    }
    while i < n
        invariant
            i <= n == orig.len(),
            streams_view(rest@) == orig.skip(i as int),
            streams_view(out@) == sort_by_bandwidth(orig.take(i as int)),
            out@.len() == i,
            rest@.len() == n - i,
        decreases n - i,
    {
        let ghost r0 = rest@;
        assert(streams_view(r0)[0] == r0[0]@);
        let x = rest.remove(0);
        let ghost xv = x@;
        proof {
            assert(r0.remove(0) == r0.skip(1));
            assert(streams_view(r0.skip(1)) == streams_view(r0).skip(1));
            assert(xv == orig[i as int]);
            assert(streams_view(rest@) == orig.skip(i + 1));
            assert(orig.take(i + 1).drop_last() == orig.take(i as int));
            assert(orig.take(i + 1).last() == xv);
        }
        let ghost o = streams_view(out@);
        let mut pos = out.len();
        proof {
            assert(o.take(pos as int) == o);
            assert(o.skip(pos as int) == Seq::<StreamInfoView>::empty());
        }
        while pos > 0 && out[pos - 1].bandwidth < x.bandwidth
            invariant
                pos <= out@.len(),
                o == streams_view(out@),
                insert_by_bandwidth(o, xv) == insert_by_bandwidth(o.take(pos as int), xv) + o.skip(pos as int),
                x@ == xv,
            decreases pos,
        {
            proof {
                let t = o.take(pos as int);
                assert(t.last() == o[pos - 1]);
                assert(t.drop_last() == o.take(pos - 1));
                assert(o.skip(pos - 1) == seq![o[pos - 1]] + o.skip(pos as int));
                assert(insert_by_bandwidth(o.take(pos - 1), xv).push(o[pos - 1]) + o.skip(pos as int)
                    == insert_by_bandwidth(o.take(pos - 1), xv) + o.skip(pos - 1));
            }
            pos -= 1;
        }
        proof {
            if pos > 0 {
                assert(o.take(pos as int).last() == o[pos - 1]);
            }
            assert(insert_by_bandwidth(o.take(pos as int), xv) == o.take(pos as int).push(xv));
        }
        out.insert(pos, x);
        proof {
            assert(streams_view(out@) == o.take(pos as int).push(xv) + o.skip(pos as int));
        }
        i += 1;
    }
    proof {
        assert(orig.take(n as int) == orig);
    }
    out
}

/// `parse_master_playlist(content, base_url)`: the quality variants of a
/// master playlist, best bandwidth first.
pub fn parse_master_playlist(content: &str, base_url: &str) -> (r: Vec<StreamInfo>)
    ensures
        streams_view(r@) == master_playlist(content@, base_url@),
{
    let cv = chars_of(content);
    let ranges = line_ranges(&cv);
    let ghost ls = lines(cv@);
    let n = ranges.len();
    let mut streams: Vec<StreamInfo> = Vec::new();
    let mut i: usize = 0;
    proof {
        assert(streams_view(streams@) + variants_from(ls, 0, base_url@) == variants_from(ls, 0, base_url@));
    }
    while i < n
        invariant
            ls == lines(cv@),
            cv@ == content@,
            n == ranges@.len() == ls.len(),
            forall|k: int| 0 <= k < ranges@.len() ==> (#[trigger] ranges@[k]).0 <= ranges@[k].1 <= cv@.len(),
            forall|k: int|
                0 <= k < ranges@.len() ==> cv@.subrange(ranges@[k].0 as int, ranges@[k].1 as int) == #[trigger] ls[k],
            i <= n,
            variants_from(ls, 0, base_url@) == streams_view(streams@) + variants_from(ls, i as int, base_url@),
        decreases n - i,
    {
        let (a, b) = ranges[i];
        let line = trimmed(&cv, a, b);
        proof {
            let _ = ranges@[i as int];
            reveal_strlit("#EXT-X-STREAM-INF:");
            assert(line@.len() == line.len());
        }
        if starts_with_str(&line, "#EXT-X-STREAM-INF:") {
            let attrs = suffix(&line, 18);
            let mut j = i + 1;
            let mut found = false;
            proof {
                lemma_next_uri_line(ls, i + 1);
            }
            while j < n && !found
                invariant
                    i + 1 <= j <= n,
                    n == ranges@.len() == ls.len(),
                    forall|k: int| 0 <= k < ranges@.len() ==> (#[trigger] ranges@[k]).0 <= ranges@[k].1 <= cv@.len(),
                    forall|k: int|
                        0 <= k < ranges@.len() ==> cv@.subrange(ranges@[k].0 as int, ranges@[k].1 as int) == #[trigger] ls[k],
                    found ==> j < n && next_uri_line(ls, i + 1) == j,
                    !found ==> next_uri_line(ls, i + 1) == next_uri_line(ls, j as int),
                decreases n - j + (if found { 0int } else { 1int }),
            {
                let (c, d) = ranges[j];
                let t = trimmed(&cv, c, d);
                proof {
                    let _ = ranges@[j as int];
                }
                if t.len() == 0 || starts_with_str(&t, "#") {
                    j += 1;
                } else {
                    found = true;
                }
            }
            if found {
                let (c, d) = ranges[j];
                let uri = trimmed(&cv, c, d);
                proof {
                    let _ = ranges@[j as int];
                }
                let v = variant_from(&attrs, &uri, base_url);
                let ghost before = streams_view(streams@);
                streams.push(v);
                proof {
                    assert(streams_view(streams@) == before.push(v@));
                    assert(variants_from(ls, i as int, base_url@) == seq![v@] + variants_from(ls, j + 1, base_url@));
                    assert(before + (seq![v@] + variants_from(ls, j + 1, base_url@)) == before.push(v@) + variants_from(ls, j + 1, base_url@));
                }
                i = j + 1;
            } else {
                proof {
                    assert(next_uri_line(ls, j as int) == ls.len());
                    assert(variants_from(ls, i as int, base_url@) == Seq::<StreamInfoView>::empty());
                    assert(variants_from(ls, n as int, base_url@) == Seq::<StreamInfoView>::empty());
                }
                i = n;
            }
        } else {
            i += 1;
        }
    }
    proof {
        assert(variants_from(ls, i as int, base_url@) == Seq::<StreamInfoView>::empty());
        assert(streams_view(streams@) + Seq::<StreamInfoView>::empty() == streams_view(streams@));
    }
    sort_by_bandwidth_desc(streams)
}

} // verus!
