//! Stream detection: which URLs and content types are streams, the headers
//! worth replaying, and the de-duplicating register of detected streams.
use vstd::prelude::*;
use crate::text::{
    after_last_char, ascii_lower, before_char, chars_of, contains, contains_str, eq_ignore_ascii_case,
    find_char_from, lemma_find_from, lowercase, push_range, slice_chars, str_to_string, string_of, to_lowercase,
};
use crate::m3u8::{before_char_exec, eq_chars};
use crate::types::{copy_opt, opt_view};

verus! {

// ---------------------------------------------------------------------------
// Detected streams
// ---------------------------------------------------------------------------

/// A stream seen on the network or reported by a page.
#[derive(Debug)]
pub struct DetectedStream {
    pub url: String,
    pub content_type: Option<String>,
    /// `"content-type"`, `"extension"`, `"url-pattern"`, or what reported it.
    pub source: String,
    /// Replayable request headers, names in lower case, one entry per name.
    pub headers: Vec<(String, String)>,
    pub timestamp: u64,
}

pub struct DetectedStreamView {
    pub url: Seq<char>,
    pub content_type: Option<Seq<char>>,
    pub source: Seq<char>,
    pub headers: Seq<(Seq<char>, Seq<char>)>,
    pub timestamp: u64,
}

pub open spec fn pairs_view(v: Seq<(String, String)>) -> Seq<(Seq<char>, Seq<char>)> {
    v.map_values(|p: (String, String)| (p.0@, p.1@))
}

impl View for DetectedStream {
    type V = DetectedStreamView;

    open spec fn view(&self) -> DetectedStreamView {
        DetectedStreamView {
            url: self.url@,
            content_type: opt_view(self.content_type),
            source: self.source@,
            headers: pairs_view(self.headers@),
            timestamp: self.timestamp,
        }
    }
}

/// A copy of a list of text pairs.
pub fn copy_pairs(v: &Vec<(String, String)>) -> (r: Vec<(String, String)>)
    ensures
        pairs_view(r@) == pairs_view(v@),
{
    let mut r: Vec<(String, String)> = Vec::new();
    let mut i: usize = 0;
    while i < v.len()
        invariant
            i <= v.len(),
            pairs_view(r@) == pairs_view(v@).take(i as int),
        decreases v.len() - i,
    {
        r.push((v[i].0.clone(), v[i].1.clone()));
        assert(pairs_view(v@).take(i + 1) == pairs_view(v@).take(i as int).push(pairs_view(v@)[i as int]));
        i += 1;
    }
    assert(pairs_view(v@).take(v@.len() as int) == pairs_view(v@));
    r
}

impl DetectedStream {
    /// A copy of this record.
    pub fn duplicate(&self) -> (r: Self)
        ensures
            r@ == self@,
    {
        DetectedStream {
            url: self.url.clone(),
            content_type: copy_opt(&self.content_type),
            source: self.source.clone(),
            headers: copy_pairs(&self.headers),
            timestamp: self.timestamp,
        }
    }
}

pub open spec fn urls_of(s: Seq<DetectedStreamView>) -> Seq<Seq<char>> {
    s.map_values(|d: DetectedStreamView| d.url)
}

/// What `register` does to the list `s`: a stream whose URL was not seen yet
/// is appended (`true`); otherwise nothing changes (`false`).
pub open spec fn register_effect(s: Seq<DetectedStreamView>, x: DetectedStreamView) -> (bool, Seq<DetectedStreamView>) {
    if urls_of(s).contains(x.url) {
        (false, s)
    } else {
        (true, s.push(x))
    }
}

/// Every URL occurs at most once.
pub open spec fn distinct_urls(s: Seq<DetectedStreamView>) -> bool {
    forall|i: int, j: int| 0 <= i < j < s.len() ==> s[i].url != s[j].url
}

/// Streams detected so far, each URL once.
pub struct SnifferState {
    detected: Vec<DetectedStream>,
    seen_urls: Vec<String>,
}

impl View for SnifferState {
    type V = Seq<DetectedStreamView>;

    closed spec fn view(&self) -> Seq<DetectedStreamView> {
        self.detected@.map_values(|d: DetectedStream| d@)
    }
}

impl SnifferState {
    /// The list holds each URL once, and `seen_urls` lists exactly its URLs.
    pub closed spec fn wf(&self) -> bool {
        &&& self.seen_urls@.map_values(|s: String| s@) == urls_of(self@)
        &&& distinct_urls(self@)
    }

    /// An empty register (`SnifferState::default()`).
    pub fn new() -> (r: Self)
        ensures
            r.wf(),
            r@ == Seq::<DetectedStreamView>::empty(),
    {
        let r = SnifferState { detected: Vec::new(), seen_urls: Vec::new() };
        assert(r@ =~= Seq::<DetectedStreamView>::empty());
        assert(r.seen_urls@.map_values(|s: String| s@) =~= urls_of(r@));
        r
    }

    fn seen(&self, url: &String) -> (r: bool)
        requires
            self.wf(),
        ensures
            r == urls_of(self@).contains(url@),
    {
        let mut i: usize = 0;
        while i < self.seen_urls.len()
            invariant
                self.wf(),
                i <= self.seen_urls@.len(),
                forall|k: int| 0 <= k < i ==> self.seen_urls@[k]@ != url@,
            decreases self.seen_urls@.len() - i,
        {
            if self.seen_urls[i] == *url {
                assert(self.seen_urls@.map_values(|s: String| s@)[i as int] == url@);
                return true;
            }
            i += 1;
        }
        assert forall|k: int| 0 <= k < urls_of(self@).len() implies urls_of(self@)[k] != url@ by {
            assert(self.seen_urls@.map_values(|s: String| s@)[k] == self.seen_urls@[k]@);
        }
        false
    }

    /// `register(stream)`: records a stream unless its URL was seen before;
    /// tells whether it was new.
    pub fn register(&mut self, stream: DetectedStream) -> (r: bool)
        requires
            old(self).wf(),
        ensures
            final(self).wf(),
            (r, final(self)@) == register_effect(old(self)@, stream@),
    {
        if self.seen(&stream.url) {
            return false;
        }
        let ghost old_view = self@;
        let ghost old_seen = self.seen_urls@;
        let ghost old_det = self.detected@;
        self.seen_urls.push(stream.url.clone());
        self.detected.push(stream);
        proof {
            assert(self.detected@ == old_det.push(stream));
            assert(self@ =~= old_view.push(stream@));
            assert(self.seen_urls@ == old_seen.push(stream.url));
            assert(urls_of(self@) =~= urls_of(old_view).push(stream@.url));
            assert(self.seen_urls@.map_values(|s: String| s@) =~= old_seen.map_values(|s: String| s@).push(stream.url@));
            assert forall|i: int, j: int| 0 <= i < j < self@.len() implies self@[i].url != self@[j].url by {
                if j == old_view.len() {
                    assert(urls_of(old_view)[i] == old_view[i].url);
                }
            }
        }
        true
    }

    /// `get_all()`: copies of the detected streams, in detection order.
    pub fn get_all(&self) -> (r: Vec<DetectedStream>)
        ensures
            r@.map_values(|d: DetectedStream| d@) == self@,
    {
        let mut r: Vec<DetectedStream> = Vec::new();
        let mut i: usize = 0;
        while i < self.detected.len()
            invariant
                i <= self.detected@.len(),
                r@.map_values(|d: DetectedStream| d@) == self@.take(i as int),
            decreases self.detected@.len() - i,
        {
            let ghost r0 = r@;
            let d = self.detected[i].duplicate();
            r.push(d);
            proof {
                assert(self@[i as int] == self.detected@[i as int]@);
                assert(self@.take(i + 1) =~= self@.take(i as int).push(self@[i as int]));
                assert(r@.map_values(|d: DetectedStream| d@) =~= r0.map_values(|d: DetectedStream| d@).push(d@));
            }
            i += 1;
        }
        assert(self@.take(self.detected@.len() as int) == self@);
        r
    }

    /// `clear()`: forgets every detected stream.
    pub fn clear(&mut self)
        ensures
            final(self).wf(),
            final(self)@ == Seq::<DetectedStreamView>::empty(),
    {
        self.detected.clear();
        self.seen_urls.clear();
        assert(self@ =~= Seq::<DetectedStreamView>::empty());
        assert(self.seen_urls@.map_values(|s: String| s@) =~= urls_of(self@));
    }
}

impl Default for SnifferState {
    fn default() -> (r: Self)
        ensures
            r.wf(),
            r@ == Seq::<DetectedStreamView>::empty(),
    {
        SnifferState::new()
    }
}

/// `create_sniffer()`: a fresh, empty register.
pub fn create_sniffer() -> (r: SnifferState)
    ensures
        r.wf(),
        r@ == Seq::<DetectedStreamView>::empty(),
{
    SnifferState::new()
}

/// Law: registering a stream whose URL is already present changes nothing
/// and answers `false`, whatever the rest of the record holds.
pub proof fn lemma_register_dedup(s: Seq<DetectedStreamView>, x: DetectedStreamView, y: DetectedStreamView)
    requires
        x.url == y.url,
    ensures
        ({
            let (b1, s1) = register_effect(s, x);
            let (b2, s2) = register_effect(s1, y);
            !b2 && s2 == s1
        }),
{
    let s1 = register_effect(s, x).1;
    if !urls_of(s).contains(x.url) {
        assert(urls_of(s1)[s.len() as int] == x.url);
    }
}

/// Law: registering keeps every URL at most once in the register, adds at
/// most one stream, and adds one exactly when it answers `true`.
pub proof fn lemma_register_keeps_distinct(s: Seq<DetectedStreamView>, x: DetectedStreamView)
    requires
        distinct_urls(s),
    ensures
        distinct_urls(register_effect(s, x).1),
        register_effect(s, x).1.len() <= s.len() + 1,
        register_effect(s, x).0 ==> register_effect(s, x).1.len() == s.len() + 1,
{
    if !urls_of(s).contains(x.url) {
        let t = s.push(x);
        assert forall|i: int, j: int| 0 <= i < j < t.len() implies t[i].url != t[j].url by {
            if j == s.len() {
                assert(urls_of(s)[i] == s[i].url);
            }
        }
    }
}

// ---------------------------------------------------------------------------
// Classification
// ---------------------------------------------------------------------------

/// Content types of streams (`STREAM_CONTENT_TYPES`), lower case.
pub open spec fn stream_content_type_listed(lower: Seq<char>) -> bool {
    contains(lower, "application/x-mpegurl"@) || contains(lower, "application/vnd.apple.mpegurl"@)
        || contains(lower, "audio/mpegurl"@) || contains(lower, "audio/x-mpegurl"@)
        || contains(lower, "video/mp2t"@) || contains(lower, "application/dash+xml"@)
        || contains(lower, "video/mp4"@) || contains(lower, "audio/mp4"@)
        || contains(lower, "video/webm"@)
}

/// `is_stream_content_type(content_type)`: the lower-cased type contains one
/// of the stream content types.
pub fn is_stream_content_type(content_type: &str) -> (r: bool)
    ensures
        r == stream_content_type_listed(lowercase(content_type@)),
{
    let lower = to_lowercase(content_type);
    let ct = chars_of(lower.as_str());
    contains_str(&ct, "application/x-mpegurl") || contains_str(&ct, "application/vnd.apple.mpegurl")
        || contains_str(&ct, "audio/mpegurl") || contains_str(&ct, "audio/x-mpegurl")
        || contains_str(&ct, "video/mp2t") || contains_str(&ct, "application/dash+xml")
        || contains_str(&ct, "video/mp4") || contains_str(&ct, "audio/mp4")
        || contains_str(&ct, "video/webm")
}

/// The extension of a URL as `is_stream_url` reads it: after the last `.`
/// of the part before any `?` and then any `#`.
pub open spec fn url_extension(url: Seq<char>) -> Seq<char> {
    after_last_char(before_char(before_char(url, '?'), '#'), '.')
}

/// `STREAM_EXTENSIONS`, compared without regard to ASCII case.
pub open spec fn stream_extension_listed(ext: Seq<char>) -> bool {
    eq_ignore_ascii_case(ext, "m3u8"@) || eq_ignore_ascii_case(ext, "m3u"@) || eq_ignore_ascii_case(ext, "ts"@)
        || eq_ignore_ascii_case(ext, "m4s"@) || eq_ignore_ascii_case(ext, "mpd"@)
        || eq_ignore_ascii_case(ext, "m4a"@) || eq_ignore_ascii_case(ext, "m4v"@)
        || eq_ignore_ascii_case(ext, "mp4"@) || eq_ignore_ascii_case(ext, "fmp4"@)
}

fn ascii_lower_exec(c: char) -> (r: char)
    ensures
        r == ascii_lower(c),
{
    if 'A' <= c && c <= 'Z' {
        ((c as u8) + 32) as char
    } else {
        c
    }
}

/// `str::eq_ignore_ascii_case` between characters and a text.
pub fn eq_ignore_ascii_case_str(a: &Vec<char>, b: &str) -> (r: bool)
    ensures
        r == eq_ignore_ascii_case(a@, b@),
{
    let bv = chars_of(b);
    if a.len() != bv.len() {
        assert(!eq_ignore_ascii_case(a@, b@));
        return false;
    }
    let mut i: usize = 0;
    while i < a.len()
        invariant
            a@.len() == bv@.len(),
            bv@ == b@,
            i <= a@.len(),
            forall|k: int| 0 <= k < i ==> ascii_lower(#[trigger] a@[k]) == ascii_lower(bv@[k]),
        decreases a@.len() - i,
    {
        if ascii_lower_exec(a[i]) != ascii_lower_exec(bv[i]) {
            assert(!eq_ignore_ascii_case(a@, b@));
            return false;
        }
        i += 1;
    }
    true
}

/// The text after the last `c` in `v` (`rsplit(c).next()`).
pub fn after_last_char_exec(v: &Vec<char>, c: char) -> (r: Vec<char>)
    ensures
        r@ == after_last_char(v@, c),
{
    let mut k = v.len();
    assert(v@.take(k as int) == v@);
    assert(v@.skip(k as int) == Seq::<char>::empty());
    assert(after_last_char(v@, c) + Seq::<char>::empty() == after_last_char(v@, c));
    while k > 0 && v[k - 1] != c
        invariant
            k <= v@.len(),
            after_last_char(v@, c) == after_last_char(v@.take(k as int), c) + v@.skip(k as int),
        decreases k,
    {
        proof {
            let t = v@.take(k as int);
            assert(t.drop_last() == v@.take(k - 1));
            assert(t.last() == v@[k - 1]);
            assert(v@.skip(k - 1) == seq![v@[k - 1]] + v@.skip(k as int));
            assert(after_last_char(v@.take(k - 1), c).push(v@[k - 1]) + v@.skip(k as int)
                == after_last_char(v@.take(k - 1), c) + v@.skip(k - 1));
        }
        k -= 1;
    }
    proof {
        if k > 0 {
            assert(v@.take(k as int).last() == c);
        }
        assert(after_last_char(v@.take(k as int), c) == Seq::<char>::empty());
        assert(Seq::<char>::empty() + v@.skip(k as int) == v@.skip(k as int));
    }
    slice_chars(v, k, v.len())
}

/// `is_stream_url(url)`: the extension is one of the stream extensions.
pub fn is_stream_url(url: &str) -> (r: bool)
    ensures
        r == stream_extension_listed(url_extension(url@)),
{
    let u = chars_of(url);
    let p1 = before_char_exec(&u, '?');
    let p2 = before_char_exec(&p1, '#');
    let ext = after_last_char_exec(&p2, '.');
    eq_ignore_ascii_case_str(&ext, "m3u8") || eq_ignore_ascii_case_str(&ext, "m3u")
        || eq_ignore_ascii_case_str(&ext, "ts") || eq_ignore_ascii_case_str(&ext, "m4s")
        || eq_ignore_ascii_case_str(&ext, "mpd") || eq_ignore_ascii_case_str(&ext, "m4a")
        || eq_ignore_ascii_case_str(&ext, "m4v") || eq_ignore_ascii_case_str(&ext, "mp4")
        || eq_ignore_ascii_case_str(&ext, "fmp4")
}

/// The URL patterns of `is_stream_url_pattern`, over the lower-cased URL.
pub open spec fn stream_url_pattern(lower: Seq<char>) -> bool {
    (contains(lower, "/manifest"@) && (contains(lower, "video"@) || contains(lower, "audio"@)))
        || contains(lower, "/playlist.m3u8"@) || contains(lower, "/master.m3u8"@)
        || contains(lower, "/index.m3u8"@) || contains(lower, "/chunklist"@)
        || (contains(lower, "hls"@) && contains(lower, "m3u"@))
}

/// `is_stream_url_pattern(url)`: common streaming URL patterns.
pub fn is_stream_url_pattern(url: &str) -> (r: bool)
    ensures
        r == stream_url_pattern(lowercase(url@)),
{
    let lower = to_lowercase(url);
    let l = chars_of(lower.as_str());
    (contains_str(&l, "/manifest") && (contains_str(&l, "video") || contains_str(&l, "audio")))
        || contains_str(&l, "/playlist.m3u8") || contains_str(&l, "/master.m3u8")
        || contains_str(&l, "/index.m3u8") || contains_str(&l, "/chunklist")
        || (contains_str(&l, "hls") && contains_str(&l, "m3u"))
}

// ---------------------------------------------------------------------------
// Headers
// ---------------------------------------------------------------------------

/// Header names worth replaying.
pub open spec fn relevant_header(name: Seq<char>) -> bool {
    name == "referer"@ || name == "origin"@ || name == "cookie"@ || name == "authorization"@
        || name == "user-agent"@ || name == "accept"@ || name == "x-requested-with"@
}

/// `HeaderValue::to_str` succeeds: only visible ASCII bytes and tabs.
pub open spec fn visible_ascii(v: Seq<u8>) -> bool {
    forall|i: int| 0 <= i < v.len() ==> (32 <= #[trigger] v[i] < 127 || v[i] == 9)
}

/// The characters of ASCII bytes.
pub open spec fn ascii_text(v: Seq<u8>) -> Seq<char> {
    v.map_values(|b: u8| b as char)
}

/// Index of the pair whose name is `k`.
pub open spec fn key_index(m: Seq<(Seq<char>, Seq<char>)>, k: Seq<char>) -> Option<int>
    decreases m.len(),
{
    if m.len() == 0 {
        None
    } else if m.last().0 == k {
        Some(m.len() - 1)
    } else {
        key_index(m.drop_last(), k)
    }
}

/// `HashMap::insert` on a list of pairs: replaces the value of `k` or appends.
pub open spec fn put(m: Seq<(Seq<char>, Seq<char>)>, k: Seq<char>, v: Seq<char>) -> Seq<(Seq<char>, Seq<char>)> {
    match key_index(m, k) {
        Some(i) => m.update(i, (k, v)),
        None => m.push((k, v)),
    }
}

/// `capture_relevant_headers` over the headers `hs` (name, raw value bytes).
pub open spec fn captured(hs: Seq<(Seq<char>, Seq<u8>)>) -> Seq<(Seq<char>, Seq<char>)>
    decreases hs.len(),
{
    if hs.len() == 0 {
        seq![]
    } else {
        let prev = captured(hs.drop_last());
        let name = lowercase(hs.last().0);
        if relevant_header(name) && visible_ascii(hs.last().1) {
            put(prev, name, ascii_text(hs.last().1))
        } else {
            prev
        }
    }
}

/// The request headers that stream downloads replay, by lower-case name.
pub open spec fn is_replayed_header(name: Seq<char>) -> bool {
    ||| name == "referer"@
    ||| name == "origin"@
    ||| name == "cookie"@
    ||| name == "authorization"@
    ||| name == "user-agent"@
    ||| name == "accept"@
    ||| name == "x-requested-with"@
}

proof fn lemma_key_index(m: Seq<(Seq<char>, Seq<char>)>, k: Seq<char>)
    ensures
        key_index(m, k) matches Some(i) ==> 0 <= i < m.len() && m[i].0 == k,
        key_index(m, k) is None ==> forall|i: int| 0 <= i < m.len() ==> m[i].0 != k,
    decreases m.len(),
{
    if m.len() > 0 {
        lemma_key_index(m.drop_last(), k);
        if m.last().0 != k {
            assert forall|i: int| 0 <= i < m.len() - 1 implies m[i] == m.drop_last()[i] by {}
        }
    }
}

/// `put` stores the pair, and keeps every pair under another name.
proof fn lemma_put(m: Seq<(Seq<char>, Seq<char>)>, k: Seq<char>, v: Seq<char>)
    ensures
        put(m, k, v).contains((k, v)),
        forall|p: (Seq<char>, Seq<char>)| m.contains(p) && p.0 != k ==> put(m, k, v).contains(p),
        forall|p: (Seq<char>, Seq<char>)| put(m, k, v).contains(p) ==> p == (k, v) || m.contains(p),
{
    lemma_key_index(m, k);
    match key_index(m, k) {
        Some(i) => {
            let r = m.update(i, (k, v));
            assert(r[i] == (k, v));
            assert forall|p: (Seq<char>, Seq<char>)| m.contains(p) && p.0 != k implies r.contains(p) by {
                let j = choose|j: int| 0 <= j < m.len() && m[j] == p;
                assert(j != i);
                assert(r[j] == p);
            }
            assert forall|p: (Seq<char>, Seq<char>)| r.contains(p) implies p == (k, v) || m.contains(p) by {
                let j = choose|j: int| 0 <= j < r.len() && r[j] == p;
                if j != i {
                    assert(m[j] == p);
                }
            }
        },
        None => {
            let r = m.push((k, v));
            assert(r[m.len() as int] == (k, v));
            assert forall|p: (Seq<char>, Seq<char>)| m.contains(p) && p.0 != k implies r.contains(p) by {
                let j = choose|j: int| 0 <= j < m.len() && m[j] == p;
                assert(r[j] == p);
            }
            assert forall|p: (Seq<char>, Seq<char>)| r.contains(p) implies p == (k, v) || m.contains(p) by {
                let j = choose|j: int| 0 <= j < r.len() && r[j] == p;
                if j < m.len() {
                    assert(m[j] == p);
                }
            }
        },
    }
}

/// Law: a request header whose name is, in any letter case, `Referer`,
/// `Origin`, `Cookie`, `Authorization`, `User-Agent`, `Accept` or
/// `X-Requested-With`, with a visible-ASCII value, is captured under its
/// lower-case name with that value, unless a later header of the same name
/// with a visible-ASCII value replaces it.
pub proof fn lemma_replayed_header_captured(hs: Seq<(Seq<char>, Seq<u8>)>, i: int)
    requires
        0 <= i < hs.len(),
        is_replayed_header(lowercase(hs[i].0)),
        visible_ascii(hs[i].1),
        forall|j: int| i < j < hs.len() && lowercase(#[trigger] hs[j].0) == lowercase(hs[i].0) ==> !visible_ascii(hs[j].1),
    ensures
        captured(hs).contains((lowercase(hs[i].0), ascii_text(hs[i].1))),
    decreases hs.len(),
{
    let name = lowercase(hs[i].0);
    let last = hs.last();
    if i == hs.len() - 1 {
        lemma_put(captured(hs.drop_last()), name, ascii_text(hs[i].1));
    } else {
        let prev = hs.drop_last();
        assert forall|j: int| i < j < prev.len() && lowercase(#[trigger] prev[j].0) == lowercase(prev[i].0) implies !visible_ascii(prev[j].1) by {
            assert(prev[j] == hs[j]);
        }
        assert(prev[i] == hs[i]);
        lemma_replayed_header_captured(prev, i);
        let n2 = lowercase(last.0);
        if relevant_header(n2) && visible_ascii(last.1) {
            assert(hs[hs.len() - 1] == last);
            assert(n2 != name);
            lemma_put(captured(prev), n2, ascii_text(last.1));
        }
    }
}

/// Law: only the replayed headers are captured, each with the visible-ASCII
/// value of a header of that name.
pub proof fn lemma_captured_only_replayed(hs: Seq<(Seq<char>, Seq<u8>)>, p: (Seq<char>, Seq<char>))
    requires
        captured(hs).contains(p),
    ensures
        is_replayed_header(p.0),
        exists|j: int| 0 <= j < hs.len() && lowercase(#[trigger] hs[j].0) == p.0 && visible_ascii(hs[j].1) && ascii_text(hs[j].1) == p.1,
    decreases hs.len(),
{
    let prev = hs.drop_last();
    let name = lowercase(hs.last().0);
    if relevant_header(name) && visible_ascii(hs.last().1) {
        lemma_put(captured(prev), name, ascii_text(hs.last().1));
        if p == (name, ascii_text(hs.last().1)) {
            assert(lowercase(hs[hs.len() - 1].0) == p.0);
        } else {
            lemma_captured_only_replayed(prev, p);
            let j = choose|j: int| 0 <= j < prev.len() && lowercase(#[trigger] prev[j].0) == p.0 && visible_ascii(prev[j].1) && ascii_text(prev[j].1) == p.1;
            assert(prev[j] == hs[j]);
        }
    } else {
        lemma_captured_only_replayed(prev, p);
        let j = choose|j: int| 0 <= j < prev.len() && lowercase(#[trigger] prev[j].0) == p.0 && visible_ascii(prev[j].1) && ascii_text(prev[j].1) == p.1;
        assert(prev[j] == hs[j]);
    }
}

pub open spec fn raw_headers_view(hs: Seq<(String, Vec<u8>)>) -> Seq<(Seq<char>, Seq<u8>)> {
    hs.map_values(|p: (String, Vec<u8>)| (p.0@, p.1@))
}

fn relevant_header_exec(name: &Vec<char>) -> (r: bool)
    ensures
        r == relevant_header(name@),
{
    let a = chars_of("referer");
    let b = chars_of("origin");
    let c = chars_of("cookie");
    let d = chars_of("authorization");
    let e = chars_of("user-agent");
    let f = chars_of("accept");
    let g = chars_of("x-requested-with");
    eq_chars(name, &a) || eq_chars(name, &b) || eq_chars(name, &c) || eq_chars(name, &d)
        || eq_chars(name, &e) || eq_chars(name, &f) || eq_chars(name, &g)
}

fn visible_ascii_text(v: &Vec<u8>) -> (r: Option<String>)
    ensures
        match r {
            Some(s) => visible_ascii(v@) && s@ == ascii_text(v@),
            None => !visible_ascii(v@),
        },
{
    let mut s = String::new();
    let mut i: usize = 0;
    while i < v.len()
        invariant
            i <= v@.len(),
            visible_ascii(v@.take(i as int)),
            s@ == ascii_text(v@.take(i as int)),
        decreases v@.len() - i,
    {
        let b = v[i];
        if !((32 <= b && b < 127) || b == 9) {
            assert(!visible_ascii(v@));
            return None;
        }
        s.push(b as char);
        assert(v@.take(i + 1) == v@.take(i as int).push(b));
        assert(ascii_text(v@.take(i + 1)) =~= ascii_text(v@.take(i as int)).push(b as char));
        i += 1;
    }
    assert(v@.take(v@.len() as int) == v@);
    Some(s)
}

fn put_exec(m: &mut Vec<(String, String)>, k: String, v: String)
    ensures
        pairs_view(final(m)@) == put(pairs_view(old(m)@), k@, v@),
{
    let ghost mv = pairs_view(m@);
    let mut i = m.len();
    assert(mv.take(i as int) == mv);
    while i > 0 && m[i - 1].0 != k
        invariant
            i <= m@.len(),
            mv == pairs_view(m@),
            key_index(mv, k@) == key_index(mv.take(i as int), k@),
        decreases i,
    {
        proof {
            assert(mv.take(i as int).drop_last() == mv.take(i - 1));
            assert(mv.take(i as int).last() == mv[i - 1]);
        }
        i -= 1;
    }
    if i == 0 {
        proof {
            assert(mv.take(0) == Seq::<(Seq<char>, Seq<char>)>::empty());
        }
        m.push((k, v));
        assert(pairs_view(m@) =~= mv.push((k@, v@)));
    } else {
        proof {
            assert(mv.take(i as int).last() == mv[i - 1]);
        }
        m.set(i - 1, (k, v));
        assert(pairs_view(m@) =~= mv.update(i - 1, (k@, v@)));
    }
}

/// `capture_relevant_headers(headers)`: the relevant request headers, names
/// lower-cased, values only where they are visible ASCII, a later value of
/// a name replacing an earlier one.
pub fn capture_relevant_headers(headers: &Vec<(String, Vec<u8>)>) -> (r: Vec<(String, String)>)
    ensures
        pairs_view(r@) == captured(raw_headers_view(headers@)),
{
    let ghost hv = raw_headers_view(headers@);
    let mut out: Vec<(String, String)> = Vec::new();
    let mut i: usize = 0;
    proof {
        assert(hv.take(0) == Seq::<(Seq<char>, Seq<u8>)>::empty());
        assert(pairs_view(out@) =~= Seq::<(Seq<char>, Seq<char>)>::empty());
    }
    while i < headers.len()
        invariant
            i <= headers@.len(),
            hv == raw_headers_view(headers@),
            pairs_view(out@) == captured(hv.take(i as int)),
        decreases headers@.len() - i,
    {
        proof {
            assert(hv.take(i + 1).drop_last() == hv.take(i as int));
            assert(hv.take(i + 1).last() == hv[i as int]);
            assert(hv[i as int] == (headers@[i as int].0@, headers@[i as int].1@));
        }
        let name = to_lowercase(headers[i].0.as_str());
        let nv = chars_of(name.as_str());
        if relevant_header_exec(&nv) {
            if let Some(val) = visible_ascii_text(&headers[i].1) {
                put_exec(&mut out, name, val);
            }
        }
        i += 1;
    }
    assert(hv.take(headers@.len() as int) == hv);
    out
}

// ---------------------------------------------------------------------------
// Responses
// ---------------------------------------------------------------------------

/// How `check_response` names the evidence: by content type, by extension,
/// by URL pattern, or `None` when it is no stream.
pub open spec fn detection_source(url: Seq<char>, content_type: Option<Seq<char>>) -> Option<Seq<char>> {
    if content_type matches Some(ct) && stream_content_type_listed(lowercase(ct)) {
        Some("content-type"@)
    } else if stream_extension_listed(url_extension(url)) {
        Some("extension"@)
    } else if stream_url_pattern(lowercase(url)) {
        Some("url-pattern"@)
    } else {
        None
    }
}

/// `check_response` with the clock read by the caller: the detected stream
/// for a response, stamped with `timestamp`.
pub fn detect_stream(url: &str, content_type: Option<&str>, headers: &Vec<(String, Vec<u8>)>, timestamp: u64) -> (r: Option<DetectedStream>)
    ensures
        match detection_source(url@, match content_type { Some(c) => Some(c@), None => None }) {
            None => r is None,
            Some(src) => r matches Some(d) && d@ == (DetectedStreamView {
                url: url@,
                content_type: match content_type { Some(c) => Some(c@), None => None },
                source: src,
                headers: captured(raw_headers_view(headers@)),
                timestamp,
            }),
        },
{
    let mut source: Vec<char> = Vec::new();
    let mut found = false;
    if let Some(ct) = content_type {
        if is_stream_content_type(ct) {
            crate::text::push_str(&mut source, "content-type");
            found = true;
        }
    }
    if !found && is_stream_url(url) {
        crate::text::push_str(&mut source, "extension");
        found = true;
    }
    if !found && is_stream_url_pattern(url) {
        crate::text::push_str(&mut source, "url-pattern");
        found = true;
    }
    if !found {
        return None;
    }
    let ct = match content_type {
        Some(c) => Some(str_to_string(c)),
        None => None,
    };
    Some(DetectedStream {
        url: str_to_string(url),
        content_type: ct,
        source: string_of(&source),
        headers: capture_relevant_headers(headers),
        timestamp,
    })
}

/// `now_millis()`: milliseconds since the Unix epoch by the system clock
/// (`0` if the clock reads before the epoch). Nothing is claimed of the value.
#[verifier::external_body]
pub(crate) fn now_millis() -> u64 {
    match std::time::SystemTime::now().duration_since(std::time::UNIX_EPOCH) {
        Ok(d) => d.as_millis() as u64,
        Err(_) => 0,
    }
}

/// `check_response(url, content_type, headers)`: [`detect_stream`] stamped
/// with the current time.
pub fn check_response(url: &str, content_type: Option<&str>, headers: &Vec<(String, Vec<u8>)>) -> (r: Option<DetectedStream>)
    ensures
        match detection_source(url@, match content_type { Some(c) => Some(c@), None => None }) {
            None => r is None,
            Some(src) => r matches Some(d) && d.url@ == url@ && d.source@ == src
                && opt_view(d.content_type) == (match content_type { Some(c) => Some(c@), None => None })
                && pairs_view(d.headers@) == captured(raw_headers_view(headers@)),
        },
{
    let now = now_millis();
    detect_stream(url, content_type, headers, now)
}

} // verus!
