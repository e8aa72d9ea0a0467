//! Analysis of a URL's content: what the fetched text is, which playlist
//! URLs a page embeds, and the streams and title that come out of it. The
//! fetching itself is the application's part; it hands the bodies in.
use vstd::prelude::*;
use crate::text::{
    chars_of, contains, contains_str, decimal, decimal_exec, find, lowercase, push_range, push_str,
    replace_all, replace_exec, starts_with, starts_with_str, string_of, to_lowercase, trim, trimmed,
    find_from_exec, lemma_find_from, lemma_find_shift, find_from, matches_at,
};
use crate::m3u8::{
    is_m3u8, is_master_playlist, master_playlist, media_playlist, parse_master_playlist,
    parse_media_playlist, sort_by_bandwidth, sort_by_bandwidth_desc, lemma_sort_by_bandwidth, variants_from,
};
use crate::text::lines;
use crate::patterns::{all_group1, regex_group1_all};
use crate::sniffer::now_millis;
use crate::text::trim_start;
use crate::types::{
    opt_view, segments_view, streams_view, SegmentView, StreamInfo, StreamInfoView, VideoFound,
    VideoFoundView,
};
use crate::urls::{join_url, joined_url};

verus! {

// ---------------------------------------------------------------------------
// What was fetched
// ---------------------------------------------------------------------------

/// What the body at a URL is.
#[derive(Clone, Copy, Debug, PartialEq, Eq)]
pub enum BodyKind {
    /// An HLS playlist (`#EXTM3U`).
    Playlist,
    /// An HTML page to scan for playlist URLs.
    Page,
}

/// Message when the URL is neither a playlist nor a page.
pub open spec fn no_streams_at_url() -> Seq<char> {
    "No HLS streams found at this URL"@
}

/// `analyze` after the fetch: a playlist when the body is one, otherwise a
/// page when the (lower-cased) content type says `html`, otherwise an error.
pub fn classify_body(body: &str, content_type: &str) -> (r: Result<BodyKind, String>)
    ensures
        starts_with(trim_start(body@), "#EXTM3U"@) ==> r == Ok::<BodyKind, String>(BodyKind::Playlist),
        !starts_with(trim_start(body@), "#EXTM3U"@) && contains(lowercase(content_type@), "html"@) ==> r
            == Ok::<BodyKind, String>(BodyKind::Page),
        !starts_with(trim_start(body@), "#EXTM3U"@) && !contains(lowercase(content_type@), "html"@) ==> (r
            matches Err(e) && e@ == no_streams_at_url()),
{
    if is_m3u8(body) {
        return Ok(BodyKind::Playlist);
    }
    let ct = to_lowercase(content_type);
    let cv = chars_of(ct.as_str());
    if contains_str(&cv, "html") {
        return Ok(BodyKind::Page);
    }
    let m = chars_of("No HLS streams found at this URL");
    Err(string_of(&m))
}

// ---------------------------------------------------------------------------
// Streams from playlists
// ---------------------------------------------------------------------------

/// The one stream of a media playlist at `url` (`"Original"` quality).
pub open spec fn single_stream_of(url: Seq<char>, content: Seq<char>) -> StreamInfoView {
    let m = media_playlist(content, url);
    StreamInfoView {
        url,
        quality: "Original"@,
        bandwidth: 0,
        resolution: None,
        codecs: None,
        segments: m.segments,
        is_encrypted: m.encrypted,
        is_live: false,
        init_segment_url: None,
        total_duration_us: m.total_us,
        target_duration_us: 0,
        media_sequence: 0,
    }
}

/// The stream of a media playlist at `url`.
pub fn single_stream(url: &str, content: &str) -> (r: StreamInfo)
    ensures
        r@ == single_stream_of(url@, content@),
{
    let (segments, encrypted, total) = parse_media_playlist(content, url);
    let q = chars_of("Original");
    let uv = chars_of(url);
    StreamInfo {
        url: string_of(&uv),
        quality: string_of(&q),
        bandwidth: 0,
        resolution: None,
        codecs: None,
        segments,
        is_encrypted: encrypted,
        is_live: false,
        init_segment_url: None,
        total_duration_us: total,
        target_duration_us: 0,
        media_sequence: 0,
    }
}

/// The streams a playlist body at `url` yields: the variants of a master
/// playlist (best first), the single stream of a media playlist, or none
/// when the body is no playlist.
pub open spec fn playlist_streams(url: Seq<char>, body: Seq<char>) -> Seq<StreamInfoView> {
    if !starts_with(trim_start(body), "#EXTM3U"@) {
        seq![]
    } else if contains(body, "#EXT-X-STREAM-INF:"@) {
        master_playlist(body, url)
    } else {
        seq![single_stream_of(url, body)]
    }
}

/// `analyze_html_page`'s reading of one fetched playlist.
pub fn streams_from_playlist(url: &str, body: &str) -> (r: Vec<StreamInfo>)
    ensures
        streams_view(r@) == playlist_streams(url@, body@),
{
    if !is_m3u8(body) {
        let r: Vec<StreamInfo> = Vec::new();
        assert(streams_view(r@) =~= Seq::<StreamInfoView>::empty());
        return r;
    }
    if is_master_playlist(body) {
        parse_master_playlist(body, url)
    } else {
        let mut r: Vec<StreamInfo> = Vec::new();
        let s = single_stream(url, body);
        r.push(s);
        assert(streams_view(r@) =~= seq![s@]);
        r
    }
}

/// `analyze_m3u8` after each variant's media playlist was fetched: the
/// stream takes the segments, encryption flag and duration of `body`.
pub fn fill_from_media_playlist(stream: &mut StreamInfo, body: &str)
    ensures
        final(stream)@ == (StreamInfoView {
            segments: media_playlist(body@, old(stream).url@).segments,
            is_encrypted: media_playlist(body@, old(stream).url@).encrypted,
            total_duration_us: media_playlist(body@, old(stream).url@).total_us,
            ..old(stream)@
        }),
{
    let (segments, encrypted, total) = parse_media_playlist(body, stream.url.as_str());
    stream.segments = segments;
    stream.is_encrypted = encrypted;
    stream.total_duration_us = total;
}

/// The video of a playlist URL before its variants are fetched: the
/// variants of a master playlist, or the single stream of a media playlist.
pub open spec fn playlist_video(id: Seq<char>, url: Seq<char>, content: Seq<char>) -> VideoFoundView {
    VideoFoundView {
        id,
        page_url: url,
        streams: if contains(content, "#EXT-X-STREAM-INF:"@) {
            master_playlist(content, url)
        } else {
            seq![single_stream_of(url, content)]
        },
        title: None,
        best_quality_index: 0,
    }
}

/// Law (highest quality by default): the stream that a playlist's video
/// offers first (`best_quality_index`) has the greatest bandwidth of all.
pub proof fn lemma_default_quality_is_highest(id: Seq<char>, url: Seq<char>, content: Seq<char>)
    ensures
        ({
            let v = playlist_video(id, url, content);
            v.best_quality_index < v.streams.len() || v.streams.len() == 0
        }),
        forall|k: int| 0 <= k < playlist_video(id, url, content).streams.len() ==>
            #[trigger] playlist_video(id, url, content).streams[k].bandwidth
                <= playlist_video(id, url, content).streams[playlist_video(id, url, content).best_quality_index as int].bandwidth,
{
    if contains(content, "#EXT-X-STREAM-INF:"@) {
        lemma_sort_by_bandwidth(variants_from(lines(content), 0, url));
    }
}

/// `analyze_m3u8(url, content)` without the fetches of the variants (see
/// [`fill_from_media_playlist`]).
pub fn m3u8_video(id: String, url: &str, content: &str) -> (r: VideoFound)
    ensures
        r@ == playlist_video(id@, url@, content@),
{
    let streams = if is_master_playlist(content) {
        parse_master_playlist(content, url)
    } else {
        let mut v: Vec<StreamInfo> = Vec::new();
        let s = single_stream(url, content);
        v.push(s);
        assert(streams_view(v@) =~= seq![s@]);
        v
    };
    VideoFound { id, page_url: str_owned(url), streams, title: None, best_quality_index: 0 }
}

fn str_owned(s: &str) -> (r: String)
    ensures
        r@ == s@,
{
    let v = chars_of(s);
    string_of(&v)
}

// ---------------------------------------------------------------------------
// Pages
// ---------------------------------------------------------------------------

/// Pattern: a quoted text holding `.m3u8`.
pub open spec fn quoted_m3u8_pattern() -> Seq<char> {
    "[\"']([^\"']*\\.m3u8[^\"']*?)[\"']"@
}

/// Pattern: a `src=` or `href=` attribute holding `.m3u8`.
pub open spec fn attr_m3u8_pattern() -> Seq<char> {
    "(?:src|href)\\s*=\\s*[\"']([^\"']*\\.m3u8[^\"']*?)[\"']"@
}

/// A link found in a page, made absolute against the page URL unless it
/// already starts with `http`.
pub open spec fn page_link(base: Seq<char>, u: Seq<char>) -> Seq<char> {
    if starts_with(u, "http"@) {
        u
    } else {
        match joined_url(base, u) {
            Some(x) => x,
            None => u,
        }
    }
}

/// First occurrences only, in order.
pub open spec fn dedup(s: Seq<Seq<char>>) -> Seq<Seq<char>>
    decreases s.len(),
{
    if s.len() == 0 {
        s
    } else {
        let d = dedup(s.drop_last());
        if d.contains(s.last()) {
            d
        } else {
            d.push(s.last())
        }
    }
}

/// `extract_m3u8_urls(html, base_url)`: the `.m3u8` links of a page, quoted
/// ones first and then attribute values, made absolute, each once.
pub open spec fn page_m3u8_urls(html: Seq<char>, base: Seq<char>) -> Seq<Seq<char>> {
    dedup(
        (regex_group1_all(quoted_m3u8_pattern(), html) + regex_group1_all(attr_m3u8_pattern(), html)).map_values(
            |u: Seq<char>| page_link(base, u),
        ),
    )
}

fn page_link_exec(base: &str, u: String) -> (r: String)
    ensures
        r@ == page_link(base@, u@),
{
    let uv = chars_of(u.as_str());
    if starts_with_str(&uv, "http") {
        return u;
    }
    match join_url(base, u.as_str()) {
        Some(x) => x,
        None => u,
    }
}

fn contains_string(v: &Vec<String>, x: &String) -> (r: bool)
    ensures
        r == v@.map_values(|s: String| s@).contains(x@),
{
    let mut i: usize = 0;
    while i < v.len()
        invariant
            i <= v@.len(),
            forall|k: int| 0 <= k < i ==> v@[k]@ != x@,
        decreases v@.len() - i,
    {
        if v[i] == *x {
            assert(v@.map_values(|s: String| s@)[i as int] == x@);
            return true;
        }
        i += 1;
    }
    let ghost m = v@.map_values(|s: String| s@);
    assert forall|k: int| 0 <= k < m.len() implies #[trigger] m[k] != x@ by {
        assert(m[k] == v@[k]@);
    }
    false
}

/// `extract_m3u8_urls(html, base_url)`.
pub fn extract_m3u8_urls(html: &str, base_url: &str) -> (r: Vec<String>)
    ensures
        r@.map_values(|s: String| s@) == page_m3u8_urls(html@, base_url@),
{
    let q = chars_of("[\"']([^\"']*\\.m3u8[^\"']*?)[\"']");
    let a = chars_of("(?:src|href)\\s*=\\s*[\"']([^\"']*\\.m3u8[^\"']*?)[\"']");
    let qs = string_of(&q);
    let as_ = string_of(&a);
    let mut caps = all_group1(qs.as_str(), html);
    let caps2 = all_group1(as_.as_str(), html);
    let ghost c1 = caps@.map_values(|s: String| s@);
    let ghost c2 = caps2@.map_values(|s: String| s@);
    let mut k: usize = 0;
    let ghost start = caps@;
    while k < caps2.len()
        invariant
            k <= caps2@.len(),
            caps@ == start + caps2@.take(k as int),
        decreases caps2@.len() - k,
    {
        caps.push(caps2[k].clone());
        assert(caps2@.take(k + 1) == caps2@.take(k as int).push(caps2@[k as int]));
        k += 1;
    }
    assert(caps2@.take(caps2@.len() as int) == caps2@);
    let ghost all = (c1 + c2).map_values(|u: Seq<char>| page_link(base_url@, u));
    assert(caps@.map_values(|s: String| s@) =~= c1 + c2);
    let mut urls: Vec<String> = Vec::new();
    let mut i: usize = 0;
    proof {
        assert(all.take(0) == Seq::<Seq<char>>::empty());
        assert(urls@.map_values(|s: String| s@) =~= Seq::<Seq<char>>::empty());
    }
    while i < caps.len()
        invariant
            i <= caps@.len(),
            caps@.map_values(|s: String| s@) == c1 + c2,
            all == (c1 + c2).map_values(|u: Seq<char>| page_link(base_url@, u)),
            urls@.map_values(|s: String| s@) == dedup(all.take(i as int)),
        decreases caps@.len() - i,
    {
        let resolved = page_link_exec(base_url, caps[i].clone());
        proof {
            assert((c1 + c2)[i as int] == caps@[i as int]@);
            assert(all[i as int] == resolved@);
            assert(all.take(i + 1).drop_last() == all.take(i as int));
            assert(all.take(i + 1).last() == all[i as int]);
        }
        if !contains_string(&urls, &resolved) {
            let ghost u0 = urls@;
            urls.push(resolved);
            assert(urls@.map_values(|s: String| s@) =~= u0.map_values(|s: String| s@).push(all[i as int]));
        }
        i += 1;
    }
    assert(all.take(caps@.len() as int) == all);
    urls
}

/// Message when a page embeds no playlist URL.
pub open spec fn no_streams_in_page() -> Seq<char> {
    "No HLS streams found in page"@
}

/// `analyze_html_page`'s first step: the playlist URLs of a page, or an
/// error when there are none.
pub fn page_stream_urls(html: &str, page_url: &str) -> (r: Result<Vec<String>, String>)
    ensures
        match r {
            Ok(v) => v@.map_values(|s: String| s@) == page_m3u8_urls(html@, page_url@) && v@.len() > 0,
            Err(e) => page_m3u8_urls(html@, page_url@).len() == 0 && e@ == no_streams_in_page(),
        },
{
    let urls = extract_m3u8_urls(html, page_url);
    if urls.len() == 0 {
        let m = chars_of("No HLS streams found in page");
        return Err(string_of(&m));
    }
    Ok(urls)
}

/// The text between `<title>` and `</title>` (found in the lower-cased page,
/// read at the same character positions of the page), trimmed, decoded;
/// `None` when absent or blank.
pub open spec fn page_title(html: Seq<char>) -> Option<Seq<char>> {
    let lower = lowercase(html);
    match find(lower, "<title>"@) {
        None => None,
        Some(start) => match find(lower.skip(start), "</title>"@) {
            None => None,
            Some(end) => if start + end > html.len() || start + 7 > start + end {
                None
            } else {
                let t = trim(html.subrange(start + 7, start + end));
                if t.len() == 0 {
                    None
                } else {
                    Some(entities_decoded(t))
                }
            },
        },
    }
}

/// `html_escape_decode(s)`: `&amp;`, `&lt;`, `&gt;`, `&quot;`, `&#39;`, in
/// that order.
pub open spec fn entities_decoded(s: Seq<char>) -> Seq<char> {
    replace_all(
        replace_all(
            replace_all(replace_all(replace_all(s, "&amp;"@, "&"@), "&lt;"@, "<"@), "&gt;"@, ">"@),
            "&quot;"@,
            "\""@,
        ),
        "&#39;"@,
        "'"@,
    )
}

/// `html_escape_decode(s)`.
pub fn html_escape_decode(s: &Vec<char>) -> (r: Vec<char>)
    ensures
        r@ == entities_decoded(s@),
{
    let a = replace_exec(s, "&amp;", "&");
    let b = replace_exec(&a, "&lt;", "<");
    let c = replace_exec(&b, "&gt;", ">");
    let d = replace_exec(&c, "&quot;", "\"");
    replace_exec(&d, "&#39;", "'")
}

/// The character `x` does not occur in `s`.
pub open spec fn lacks(s: Seq<char>, x: char) -> bool {
    forall|k: int| 0 <= k < s.len() ==> s[k] != x
}

proof fn lemma_lacks_concat(a: Seq<char>, m: Seq<char>, b: Seq<char>, x: char)
    requires
        lacks(a, x),
        lacks(m, x),
        lacks(b, x),
    ensures
        lacks(a + m + b, x),
{
    let s = a + m + b;
    assert forall|k: int| 0 <= k < s.len() implies s[k] != x by {
        if k < a.len() {
            assert(s[k] == a[k]);
        } else if k < a.len() + m.len() {
            assert(s[k] == m[k - a.len()]);
        } else {
            assert(s[k] == b[k - a.len() - m.len()]);
        }
    }
}

/// Replacing a pattern that holds a character absent from `s` changes nothing.
proof fn lemma_replace_absent(s: Seq<char>, pat: Seq<char>, rep: Seq<char>, j: int)
    requires
        0 <= j < pat.len(),
        lacks(s, pat[j]),
    ensures
        replace_all(s, pat, rep) == s,
{
    lemma_find_from(s, pat, 0);
    if let Some(i) = find(s, pat) {
        assert(s.subrange(i, i + pat.len())[j] == s[i + j]);
    }
}

/// In `a e b`, where the only `&` is the first character of `e`, replacing
/// the `&`-pattern `pat` replaces `e` when `pat` is `e`, and nothing when
/// `pat` differs from `e` in its second character.
proof fn lemma_replace_single_entity(a: Seq<char>, e: Seq<char>, b: Seq<char>, pat: Seq<char>, rep: Seq<char>)
    requires
        lacks(a, '&'),
        lacks(b, '&'),
        e.len() >= 2,
        e[0] == '&',
        lacks(e.skip(1), '&'),
        pat.len() >= 2,
        pat[0] == '&',
        pat == e || pat[1] != e[1],
    ensures
        replace_all(a + e + b, pat, rep) == (if pat == e {
            a + rep + b
        } else {
            a + e + b
        }),
{
    let s = a + e + b;
    let n = a.len() as int;
    lemma_find_from(s, pat, 0);
    assert forall|k: int| 0 <= k && k != n implies !matches_at(s, pat, k) by {
        if matches_at(s, pat, k) {
            assert(s.subrange(k, k + pat.len())[0] == s[k]);
            if k < n {
                assert(s[k] == a[k]);
            } else if k < n + e.len() {
                assert(s[k] == e.skip(1)[k - n - 1]);
            } else {
                assert(s[k] == b[k - n - e.len()]);
            }
        }
    }
    if pat == e {
        assert(s.subrange(n, n + e.len()) =~= e);
        assert(matches_at(s, pat, n));
        assert(find(s, pat) == Some(n));
        assert(s.take(n) =~= a);
        assert(s.skip(n + pat.len()) =~= b);
        lemma_replace_absent(b, pat, rep, 0);
    } else {
        assert(!matches_at(s, pat, n)) by {
            if matches_at(s, pat, n) {
                assert(s.subrange(n, n + pat.len())[1] == s[n + 1]);
                assert(s[n + 1] == e[1]);
            }
        }
        assert(find(s, pat) is None);
    }
}

/// `e` is one of the five entities that [`entities_decoded`] replaces.
pub open spec fn is_entity(e: Seq<char>) -> bool {
    e == "&amp;"@ || e == "&lt;"@ || e == "&gt;"@ || e == "&quot;"@ || e == "&#39;"@
}

/// The five entities differ in their second character.
proof fn lemma_entities_distinct()
    ensures
        "&amp;"@ != "&lt;"@,
        "&amp;"@ != "&gt;"@,
        "&amp;"@ != "&quot;"@,
        "&amp;"@ != "&#39;"@,
        "&lt;"@ != "&gt;"@,
        "&lt;"@ != "&quot;"@,
        "&lt;"@ != "&#39;"@,
        "&gt;"@ != "&quot;"@,
        "&gt;"@ != "&#39;"@,
        "&quot;"@ != "&#39;"@,
{
    reveal_strlit("&amp;");
    reveal_strlit("&lt;");
    reveal_strlit("&gt;");
    reveal_strlit("&quot;");
    reveal_strlit("&#39;");
    assert("&amp;"@[1] == 'a');
    assert("&lt;"@[1] == 'l');
    assert("&gt;"@[1] == 'g');
    assert("&quot;"@[1] == 'q');
    assert("&#39;"@[1] == '#');
}

/// Every replacement step other than the one for `e` leaves `a e b` as it is.
proof fn lemma_other_steps_keep(a: Seq<char>, e: Seq<char>, b: Seq<char>)
    requires
        lacks(a, '&'),
        lacks(b, '&'),
        is_entity(e),
    ensures
        e != "&amp;"@ ==> replace_all(a + e + b, "&amp;"@, "&"@) == a + e + b,
        e != "&lt;"@ ==> replace_all(a + e + b, "&lt;"@, "<"@) == a + e + b,
        e != "&gt;"@ ==> replace_all(a + e + b, "&gt;"@, ">"@) == a + e + b,
        e != "&quot;"@ ==> replace_all(a + e + b, "&quot;"@, "\""@) == a + e + b,
        e != "&#39;"@ ==> replace_all(a + e + b, "&#39;"@, "'"@) == a + e + b,
        lacks(e.skip(1), '&'),
{
    reveal_strlit("&amp;");
    reveal_strlit("&lt;");
    reveal_strlit("&gt;");
    reveal_strlit("&quot;");
    reveal_strlit("&#39;");
    assert(lacks(e.skip(1), '&'));
    if e != "&amp;"@ {
        lemma_replace_single_entity(a, e, b, "&amp;"@, "&"@);
    }
    if e != "&lt;"@ {
        lemma_replace_single_entity(a, e, b, "&lt;"@, "<"@);
    }
    if e != "&gt;"@ {
        lemma_replace_single_entity(a, e, b, "&gt;"@, ">"@);
    }
    if e != "&quot;"@ {
        lemma_replace_single_entity(a, e, b, "&quot;"@, "\""@);
    }
    if e != "&#39;"@ {
        lemma_replace_single_entity(a, e, b, "&#39;"@, "'"@);
    }
}

/// Every replacement step leaves text without `&` as it is.
proof fn lemma_plain_steps_keep(t: Seq<char>)
    requires
        lacks(t, '&'),
    ensures
        replace_all(t, "&amp;"@, "&"@) == t,
        replace_all(t, "&lt;"@, "<"@) == t,
        replace_all(t, "&gt;"@, ">"@) == t,
        replace_all(t, "&quot;"@, "\""@) == t,
        replace_all(t, "&#39;"@, "'"@) == t,
        entities_decoded(t) == t,
{
    reveal_strlit("&amp;");
    reveal_strlit("&lt;");
    reveal_strlit("&gt;");
    reveal_strlit("&quot;");
    reveal_strlit("&#39;");
    lemma_replace_absent(t, "&amp;"@, "&"@, 0);
    lemma_replace_absent(t, "&lt;"@, "<"@, 0);
    lemma_replace_absent(t, "&gt;"@, ">"@, 0);
    lemma_replace_absent(t, "&quot;"@, "\""@, 0);
    lemma_replace_absent(t, "&#39;"@, "'"@, 0);
}

/// Law: in text without other `&`, each of the five entities decodes to its
/// character and the text around it is kept: `a&lt;b` gives `a<b`, `a&gt;b`
/// gives `a>b`, `a&quot;b` gives `a"b`, `a&#39;b` gives `a'b`, and (when
/// `a` and `b` also hold no `;`) `a&amp;b` gives `a&b`; text without `&` is
/// kept as it is.
pub proof fn lemma_entities_decode_to_characters(a: Seq<char>, b: Seq<char>)
    requires
        lacks(a, '&'),
        lacks(b, '&'),
    ensures
        entities_decoded(a) == a,
        entities_decoded(a + "&lt;"@ + b) == a + "<"@ + b,
        entities_decoded(a + "&gt;"@ + b) == a + ">"@ + b,
        entities_decoded(a + "&quot;"@ + b) == a + "\""@ + b,
        entities_decoded(a + "&#39;"@ + b) == a + "'"@ + b,
        lacks(a, ';') && lacks(b, ';') ==> entities_decoded(a + "&amp;"@ + b) == a + "&"@ + b,
{
    reveal_strlit("&amp;");
    reveal_strlit("&lt;");
    reveal_strlit("&gt;");
    reveal_strlit("&quot;");
    reveal_strlit("&#39;");
    reveal_strlit("&");
    reveal_strlit("<");
    reveal_strlit(">");
    reveal_strlit("\"");
    reveal_strlit("'");
    lemma_entities_distinct();
    lemma_plain_steps_keep(a);
    lemma_entity_decodes(a, b, "&lt;"@, "<"@);
    lemma_entity_decodes(a, b, "&gt;"@, ">"@);
    lemma_entity_decodes(a, b, "&quot;"@, "\""@);
    lemma_entity_decodes(a, b, "&#39;"@, "'"@);
    if lacks(a, ';') && lacks(b, ';') {
        lemma_other_steps_keep(a, "&amp;"@, b);
        lemma_replace_single_entity(a, "&amp;"@, b, "&amp;"@, "&"@);
        let t = a + "&"@ + b;
        assert(lacks("&"@, ';'));
        lemma_lacks_concat(a, "&"@, b, ';');
        lemma_replace_absent(t, "&lt;"@, "<"@, 3);
        lemma_replace_absent(t, "&gt;"@, ">"@, 3);
        lemma_replace_absent(t, "&quot;"@, "\""@, 5);
        lemma_replace_absent(t, "&#39;"@, "'"@, 4);
    }
}

/// One entity other than `&amp;` in text without other `&` decodes to `c`.
proof fn lemma_entity_decodes(a: Seq<char>, b: Seq<char>, e: Seq<char>, c: Seq<char>)
    requires
        lacks(a, '&'),
        lacks(b, '&'),
        e == "&lt;"@ || e == "&gt;"@ || e == "&quot;"@ || e == "&#39;"@,
        e == "&lt;"@ ==> c == "<"@,
        e == "&gt;"@ ==> c == ">"@,
        e == "&quot;"@ ==> c == "\""@,
        e == "&#39;"@ ==> c == "'"@,
    ensures
        entities_decoded(a + e + b) == a + c + b,
{
    reveal_strlit("&amp;");
    reveal_strlit("&lt;");
    reveal_strlit("&gt;");
    reveal_strlit("&quot;");
    reveal_strlit("&#39;");
    reveal_strlit("<");
    reveal_strlit(">");
    reveal_strlit("\"");
    reveal_strlit("'");
    lemma_entities_distinct();
    lemma_other_steps_keep(a, e, b);
    lemma_replace_single_entity(a, e, b, e, c);
    assert(lacks(c, '&'));
    lemma_lacks_concat(a, c, b, '&');
    lemma_plain_steps_keep(a + c + b);
    let s = a + e + b;
    let t = a + c + b;
    if e == "&lt;"@ {
        assert(replace_all(s, "&amp;"@, "&"@) == s);
        assert(replace_all(s, "&lt;"@, "<"@) == t);
    } else if e == "&gt;"@ {
        assert(replace_all(replace_all(s, "&amp;"@, "&"@), "&lt;"@, "<"@) == s);
        assert(replace_all(s, "&gt;"@, ">"@) == t);
    } else if e == "&quot;"@ {
        assert(replace_all(replace_all(replace_all(s, "&amp;"@, "&"@), "&lt;"@, "<"@), "&gt;"@, ">"@) == s);
        assert(replace_all(s, "&quot;"@, "\""@) == t);
    } else {
        assert(replace_all(
            replace_all(replace_all(replace_all(s, "&amp;"@, "&"@), "&lt;"@, "<"@), "&gt;"@, ">"@),
            "&quot;"@,
            "\""@,
        ) == s);
        assert(replace_all(s, "&#39;"@, "'"@) == t);
    }
}

/// `extract_title(html)`.
pub fn extract_title(html: &str) -> (r: Option<String>)
    ensures
        opt_view(r) == page_title(html@),
{
    let lower = to_lowercase(html);
    let lv = chars_of(lower.as_str());
    let hv = chars_of(html);
    let open = chars_of("<title>");
    let close = chars_of("</title>");
    proof {
        reveal_strlit("<title>");
    }
    let start = match find_from_exec(&lv, &open, 0) {
        Some(s) => s,
        None => return None,
    };
    proof {
        lemma_find_from(lv@, open@, 0);
        lemma_find_shift(lv@, close@, start as int, 0);
        assert(lv@.len() == lv.len());
    }
    let end_abs = match find_from_exec(&lv, &close, start) {
        Some(e) => e,
        None => return None,
    };
    proof {
        lemma_find_from(lv@, close@, start as int);
    }
    if end_abs > hv.len() || start + 7 > end_abs {
        return None;
    }
    let t = trimmed(&hv, start + 7, end_abs);
    if t.len() == 0 {
        return None;
    }
    let d = html_escape_decode(&t);
    Some(string_of(&d))
}

/// The video of a page: its streams sorted best first, its title.
pub open spec fn page_video_of(id: Seq<char>, page_url: Seq<char>, html: Seq<char>, streams: Seq<StreamInfoView>) -> VideoFoundView {
    VideoFoundView {
        id,
        page_url,
        streams: sort_by_bandwidth(streams),
        title: page_title(html),
        best_quality_index: 0,
    }
}

/// Message when no embedded playlist could be read.
pub open spec fn no_parsable_streams() -> Seq<char> {
    "Found m3u8 URLs but could not parse any streams"@
}

/// `analyze_html_page` after the playlists were fetched and read (see
/// [`streams_from_playlist`]): the video, or an error if none gave a stream.
pub fn page_video(id: String, page_url: &str, html: &str, streams: Vec<StreamInfo>) -> (r: Result<VideoFound, String>)
    ensures
        match r {
            Ok(v) => streams@.len() > 0 && v@ == page_video_of(id@, page_url@, html@, streams_view(streams@)),
            Err(e) => streams@.len() == 0 && e@ == no_parsable_streams(),
        },
{
    if streams.len() == 0 {
        let m = chars_of("Found m3u8 URLs but could not parse any streams");
        return Err(string_of(&m));
    }
    let sorted = sort_by_bandwidth_desc(streams);
    let title = extract_title(html);
    Ok(VideoFound { id, page_url: str_owned(page_url), streams: sorted, title, best_quality_index: 0 })
}

/// `"vid_" + ms`: the id of an analysed video made at `ms` milliseconds.
pub open spec fn video_id_at(ms: u64) -> Seq<char> {
    "vid_"@ + decimal(ms as nat)
}

/// The id made from a clock reading.
pub fn video_id(ms: u64) -> (r: String)
    ensures
        r@ == video_id_at(ms),
{
    let mut v: Vec<char> = Vec::new();
    push_str(&mut v, "vid_");
    let d = decimal_exec(ms);
    push_range(&mut v, &d, 0, d.len());
    assert(d@.subrange(0, d@.len() as int) == d@);
    string_of(&v)
}

/// `generate_id()`: `"vid_"` and the current time in milliseconds.
pub fn generate_id() -> (r: String)
    ensures
        exists|ms: u64| r@ == video_id_at(ms),
{
    let ms = now_millis();
    video_id(ms)
}

} // verus!
