//! Decisions of the Chrome (DevTools protocol) sessions: which network
//! events are streams, which playlist to keep, login pages, the course
//! trees read from pages and APIs. Driving Chrome is the application's part.
use vstd::prelude::*;
use crate::text::{
    decimal, decimal_exec, before_char, chars_of, contains, contains_str, find, find_from_exec, lemma_find_from, lowercase,
    parse_u64, parse_u64_exec, push_range, push_str, replace_all, replace_exec, starts_with,
    starts_with_str, str_to_string, string_of, to_lowercase, trim, trimmed, utf8_to_string,
};
use crate::m3u8::eq_chars;
use crate::patterns::{first_group1, is_match, regex_group1, regex_is_match};
use crate::sniffer::{eq_ignore_ascii_case_str, pairs_view};
use crate::text::eq_ignore_ascii_case;
use crate::types::opt_view;
use vstd::utf8::{decode_utf8, valid_utf8};
use base64::Engine;

verus! {

// ---------------------------------------------------------------------------
// Network events
// ---------------------------------------------------------------------------

/// A stream seen in a Chrome session.
#[derive(Clone, Debug)]
pub struct DetectedStreamCDP {
    pub url: String,
    /// `"hls"`, `"dash"` or `"unknown"`.
    pub stream_type: String,
    pub content_type: String,
}

pub struct DetectedStreamCDPView {
    pub url: Seq<char>,
    pub stream_type: Seq<char>,
    pub content_type: Seq<char>,
}

impl View for DetectedStreamCDP {
    type V = DetectedStreamCDPView;

    open spec fn view(&self) -> DetectedStreamCDPView {
        DetectedStreamCDPView { url: self.url@, stream_type: self.stream_type@, content_type: self.content_type@ }
    }
}

pub open spec fn url_stream_pattern() -> Seq<char> {
    "(?i)\\.(m3u8|m3u|mpd)(\\?|$|#)"@
}

pub open spec fn ct_stream_pattern() -> Seq<char> {
    "(?i)mpegurl|dash\\+xml|x-mpegurl|vnd\\.apple\\.mpegurl"@
}

pub open spec fn manifest_pattern() -> Seq<char> {
    "(?i)(manifest|playlist|master|index)\\.(m3u8|m3u|mpd)"@
}

pub open spec fn path_pattern() -> Seq<char> {
    "(?i)/hls/|/manifest/|/playlist\\.m3u|format=m3u|\\.m3u8"@
}

/// The session's test for a stream URL: not a `data:`, `chrome…` or `blob:`
/// URL, and a stream extension, content type, manifest name or path.
pub open spec fn session_stream(url: Seq<char>, content_type: Seq<char>) -> bool {
    !(starts_with(url, "data:"@) || starts_with(url, "chrome"@) || starts_with(url, "blob:"@)) && (
    regex_is_match(url_stream_pattern(), url) || regex_is_match(ct_stream_pattern(), content_type)
        || regex_is_match(manifest_pattern(), url) || regex_is_match(path_pattern(), url))
}

/// `is_stream_url(url, content_type)` of the Chrome sessions.
pub fn session_is_stream_url(url: &str, content_type: &str) -> (r: bool)
    ensures
        r == session_stream(url@, content_type@),
{
    let u = chars_of(url);
    if starts_with_str(&u, "data:") || starts_with_str(&u, "chrome") || starts_with_str(&u, "blob:") {
        return false;
    }
    let p1 = str_to_string("(?i)\\.(m3u8|m3u|mpd)(\\?|$|#)");
    let p2 = str_to_string("(?i)mpegurl|dash\\+xml|x-mpegurl|vnd\\.apple\\.mpegurl");
    let p3 = str_to_string("(?i)(manifest|playlist|master|index)\\.(m3u8|m3u|mpd)");
    let p4 = str_to_string("(?i)/hls/|/manifest/|/playlist\\.m3u|format=m3u|\\.m3u8");
    is_match(p1.as_str(), url) || is_match(p2.as_str(), content_type) || is_match(p3.as_str(), url)
        || is_match(p4.as_str(), url)
}

/// The kind of a stream from its URL and content type taken together.
pub open spec fn stream_kind(url: Seq<char>, content_type: Seq<char>) -> Seq<char> {
    if regex_is_match("(?i)m3u8|m3u|mpegurl"@, url + content_type) {
        "hls"@
    } else if regex_is_match("(?i)\\.mpd|dash"@, url + content_type) {
        "dash"@
    } else {
        "unknown"@
    }
}

/// Law: the kind of a stream is decided on its URL and content type read as
/// one text: any two (URL, content type) pairs that spell the same text
/// have the same kind, so a pair has the kind of its URL and type joined
/// with no type; and the kind is `"hls"`, `"dash"` or `"unknown"`.
pub proof fn lemma_kind_reads_url_and_type_together(u1: Seq<char>, c1: Seq<char>, u2: Seq<char>, c2: Seq<char>)
    requires
        u1 + c1 == u2 + c2,
    ensures
        stream_kind(u1, c1) == stream_kind(u2, c2),
        stream_kind(u1, c1) == stream_kind(u1 + c1, Seq::<char>::empty()),
        stream_kind(u1, c1) == "hls"@ || stream_kind(u1, c1) == "dash"@ || stream_kind(u1, c1) == "unknown"@,
        (stream_kind(u1, c1) == "hls"@) == regex_is_match("(?i)m3u8|m3u|mpegurl"@, u1 + c1),
        (stream_kind(u1, c1) == "dash"@) == (!regex_is_match("(?i)m3u8|m3u|mpegurl"@, u1 + c1) && regex_is_match(
            "(?i)\\.mpd|dash"@,
            u1 + c1,
        )),
{
    reveal_strlit("hls");
    reveal_strlit("dash");
    reveal_strlit("unknown");
    assert("hls"@ != "dash"@ && "hls"@ != "unknown"@ && "dash"@ != "unknown"@) by {
        assert("hls"@.len() == 3 && "dash"@.len() == 4 && "unknown"@.len() == 7);
        assert("hls"@[0] != "unknown"@[0]);
    }
    assert(u1 + c1 + Seq::<char>::empty() == u1 + c1);
}

/// `"hls"`, `"dash"` or `"unknown"` for a detected stream.
pub fn stream_type_of(url: &str, content_type: &str) -> (r: String)
    ensures
        r@ == stream_kind(url@, content_type@),
{
    let mut c: Vec<char> = chars_of(url);
    push_str(&mut c, content_type);
    let combined = string_of(&c);
    let hls = str_to_string("(?i)m3u8|m3u|mpegurl");
    let dash = str_to_string("(?i)\\.mpd|dash");
    if is_match(hls.as_str(), combined.as_str()) {
        str_to_string("hls")
    } else if is_match(dash.as_str(), combined.as_str()) {
        str_to_string("dash")
    } else {
        str_to_string("unknown")
    }
}

/// Streams found so far in a `chrome_find_streams` session.
pub struct CdpScan {
    seen: Vec<String>,
    detected: Vec<DetectedStreamCDP>,
}

impl View for CdpScan {
    type V = Seq<DetectedStreamCDPView>;

    closed spec fn view(&self) -> Seq<DetectedStreamCDPView> {
        self.detected@.map_values(|d: DetectedStreamCDP| d@)
    }
}

pub open spec fn cdp_urls(s: Seq<DetectedStreamCDPView>) -> Seq<Seq<char>> {
    s.map_values(|d: DetectedStreamCDPView| d.url)
}

/// What one network event (a request, or a response with `status`) does
/// to the list of streams: a new stream URL is appended with its kind.
pub open spec fn scan_effect(s: Seq<DetectedStreamCDPView>, url: Seq<char>, content_type: Seq<char>, status: u64) -> Seq<DetectedStreamCDPView> {
    if status >= 400 || url.len() == 0 || cdp_urls(s).contains(url) || !session_stream(url, content_type) {
        s
    } else {
        s.push(DetectedStreamCDPView { url, stream_type: stream_kind(url, content_type), content_type })
    }
}

impl CdpScan {
    /// `seen` lists exactly the detected URLs.
    pub closed spec fn wf(&self) -> bool {
        self.seen@.map_values(|s: String| s@) == cdp_urls(self@)
    }

    /// A scan with nothing found.
    pub fn new() -> (r: Self)
        ensures
            r.wf(),
            r@ == Seq::<DetectedStreamCDPView>::empty(),
    {
        let r = CdpScan { seen: Vec::new(), detected: Vec::new() };
        assert(r@ =~= Seq::<DetectedStreamCDPView>::empty());
        assert(r.seen@.map_values(|s: String| s@) =~= cdp_urls(r@));
        r
    }

    /// Takes one network event; returns the stream it revealed, if new.
    /// `status` is `0` for a request and the HTTP status for a response.
    pub fn observe(&mut self, url: &str, content_type: &str, status: u64) -> (r: Option<DetectedStreamCDP>)
        requires
            old(self).wf(),
        ensures
            final(self).wf(),
            final(self)@ == scan_effect(old(self)@, url@, content_type@, status),
            r matches Some(d) ==> final(self)@ == old(self)@.push(d@),
            r is None ==> final(self)@ == old(self)@,
    {
        let u = chars_of(url);
        if status >= 400 || u.len() == 0 {
            return None;
        }
        let us = string_of(&u);
        let mut i: usize = 0;
        while i < self.seen.len()
            invariant
                self.wf(),
                i <= self.seen@.len(),
                us@ == url@,
                forall|k: int| 0 <= k < i ==> self.seen@[k]@ != url@,
            decreases self.seen@.len() - i,
        {
            if self.seen[i] == us {
                assert(self.seen@.map_values(|s: String| s@)[i as int] == url@);
                return None;
            }
            i += 1;
        }
        proof {
            let m = self.seen@.map_values(|s: String| s@);
            assert forall|k: int| 0 <= k < m.len() implies #[trigger] m[k] != url@ by {
                assert(m[k] == self.seen@[k]@);
            }
        }
        if !session_is_stream_url(url, content_type) {
            return None;
        }
        let d = DetectedStreamCDP {
            url: us.clone(),
            stream_type: stream_type_of(url, content_type),
            content_type: str_to_string(content_type),
        };
        let ghost s0 = self.seen@;
        let ghost d0 = self.detected@;
        self.seen.push(us);
        self.detected.push(d.clone_stream());
        proof {
            assert(self@ =~= old(self)@.push(d@));
            assert(self.seen@.map_values(|s: String| s@) =~= s0.map_values(|s: String| s@).push(url@));
            assert(cdp_urls(self@) =~= cdp_urls(old(self)@).push(url@));
        }
        Some(d)
    }

    /// The streams found, in order.
    pub fn found(&self) -> (r: Vec<DetectedStreamCDP>)
        ensures
            r@.map_values(|d: DetectedStreamCDP| d@) == self@,
    {
        let mut r: Vec<DetectedStreamCDP> = Vec::new();
        let mut i: usize = 0;
        while i < self.detected.len()
            invariant
                i <= self.detected@.len(),
                r@.map_values(|d: DetectedStreamCDP| d@) == self@.take(i as int),
            decreases self.detected@.len() - i,
        {
            let ghost r0 = r@;
            let d = self.detected[i].clone_stream();
            r.push(d);
            proof {
                assert(self@[i as int] == self.detected@[i as int]@);
                assert(self@.take(i + 1) =~= self@.take(i as int).push(self@[i as int]));
                assert(r@.map_values(|d: DetectedStreamCDP| d@) =~= r0.map_values(|d: DetectedStreamCDP| d@).push(d@));
            }
            i += 1;
        }
        assert(self@.take(self.detected@.len() as int) == self@);
        r
    }
}

impl CdpScan {
    /// How a session ends: the streams found, or an error when there is none.
    pub fn outcome(&self) -> (r: Result<Vec<DetectedStreamCDP>, String>)
        ensures
            match r {
                Ok(v) => v@.map_values(|d: DetectedStreamCDP| d@) == self@ && self@.len() > 0,
                Err(e) => self@.len() == 0 && e@ == "Nenhum stream encontrado na página"@,
            },
    {
        let found = self.found();
        if found.len() == 0 {
            Err(str_to_string("Nenhum stream encontrado na página"))
        } else {
            Ok(found)
        }
    }
}

impl DetectedStreamCDP {
    /// A copy of this record.
    pub fn clone_stream(&self) -> (r: Self)
        ensures
            r@ == self@,
    {
        DetectedStreamCDP {
            url: self.url.clone(),
            stream_type: self.stream_type.clone(),
            content_type: self.content_type.clone(),
        }
    }
}

/// How long a page scan keeps listening after its first stream, in nanoseconds.
pub const SCAN_GRACE_NS: u64 = 3_000_000_000;

/// Whether a page scan stops before its next read: the deadline has come
/// (`ns_left == 0`), or more than [`SCAN_GRACE_NS`] have passed since the
/// first stream was found.
pub fn scan_should_stop(ns_left: u64, ns_since_found: Option<u64>) -> (r: bool)
    ensures
        r == (ns_left == 0 || (ns_since_found matches Some(t) && t > SCAN_GRACE_NS)),
{
    if ns_left == 0 {
        return true;
    }
    match ns_since_found {
        Some(t) => t > SCAN_GRACE_NS,
        None => false,
    }
}

/// Whether a page scan clicks the player after a read found nothing: once,
/// after the page has loaded, while no stream has been found.
pub fn scan_should_click(page_loaded: bool, tried_click: bool, found_any: bool) -> (r: bool)
    ensures
        r == (page_loaded && !tried_click && !found_any),
{
    page_loaded && !tried_click && !found_any
}

/// Law: the streams of a session have distinct URLs, whatever the events.
pub proof fn lemma_scan_distinct(s: Seq<DetectedStreamCDPView>, url: Seq<char>, ct: Seq<char>, status: u64)
    requires
        forall|i: int, j: int| 0 <= i < j < s.len() ==> s[i].url != s[j].url,
    ensures
        forall|i: int, j: int|
            0 <= i < j < scan_effect(s, url, ct, status).len() ==> scan_effect(s, url, ct, status)[i].url
                != scan_effect(s, url, ct, status)[j].url,
{
    let t = scan_effect(s, url, ct, status);
    if t.len() > s.len() {
        assert forall|i: int, j: int| 0 <= i < j < t.len() implies t[i].url != t[j].url by {
            if j == s.len() {
                assert(cdp_urls(s)[i] == s[i].url);
            }
        }
    }
}

// ---------------------------------------------------------------------------
// Finding the debugger
// ---------------------------------------------------------------------------

/// Index of the first target of type `page`.
pub open spec fn first_page(targets: Seq<(Option<Seq<char>>, Option<Seq<char>>)>, i: int) -> Option<int>
    decreases targets.len() - i,
{
    if i < 0 || i >= targets.len() {
        None
    } else if targets[i].0 == Some("page"@) {
        Some(i)
    } else {
        first_page(targets, i + 1)
    }
}

/// First debugger URL of a target that is not a page, from index `i`.
pub open spec fn first_other_ws(targets: Seq<(Option<Seq<char>>, Option<Seq<char>>)>, i: int) -> Option<Seq<char>>
    decreases targets.len() - i,
{
    if i < 0 || i >= targets.len() {
        None
    } else if targets[i].0 != Some("page"@) && targets[i].1 is Some {
        targets[i].1
    } else {
        first_other_ws(targets, i + 1)
    }
}

/// `wait_for_cdp`'s choice among the listed targets (type, debugger URL):
/// the first page's URL; failing that, the first other target's.
pub open spec fn debugger_url(targets: Seq<(Option<Seq<char>>, Option<Seq<char>>)>) -> Option<Seq<char>> {
    match first_page(targets, 0) {
        Some(i) => if targets[i].1 is Some {
            targets[i].1
        } else {
            first_other_ws(targets, 0)
        },
        None => first_other_ws(targets, 0),
    }
}

pub open spec fn targets_view(v: Seq<(Option<String>, Option<String>)>) -> Seq<(Option<Seq<char>>, Option<Seq<char>>)> {
    v.map_values(|t: (Option<String>, Option<String>)| (opt_view(t.0), opt_view(t.1)))
}

fn is_page(t: &Option<String>) -> (r: bool)
    ensures
        r == (opt_view(*t) == Some("page"@)),
{
    match t {
        Some(s) => {
            let v = chars_of(s.as_str());
            let p = chars_of("page");
            eq_chars(&v, &p)
        },
        None => false,
    }
}

/// `wait_for_cdp`'s choice of the WebSocket URL.
pub fn pick_debugger_url(targets: &Vec<(Option<String>, Option<String>)>) -> (r: Option<String>)
    ensures
        opt_view(r) == debugger_url(targets_view(targets@)),
{
    let ghost tv = targets_view(targets@);
    let mut i: usize = 0;
    let mut page: Option<usize> = None;
    while i < targets.len()
        invariant
            i <= targets@.len(),
            tv == targets_view(targets@),
            page is None ==> first_page(tv, 0) == first_page(tv, i as int),
            page matches Some(p) ==> first_page(tv, 0) == Some(p as int) && p < targets@.len(),
        decreases targets@.len() - i,
    {
        if page.is_none() {
            assert(tv[i as int] == (opt_view(targets@[i as int].0), opt_view(targets@[i as int].1)));
            if is_page(&targets[i].0) {
                page = Some(i);
            }
        }
        i += 1;
    }
    if let Some(p) = page {
        assert(tv[p as int] == (opt_view(targets@[p as int].0), opt_view(targets@[p as int].1)));
        if let Some(ws) = &targets[p].1 {
            return Some(ws.clone());
        }
    }
    let mut j: usize = 0;
    while j < targets.len()
        invariant
            j <= targets@.len(),
            tv == targets_view(targets@),
            debugger_url(tv) == first_other_ws(tv, 0),
            first_other_ws(tv, 0) == first_other_ws(tv, j as int),
        decreases targets@.len() - j,
    {
        assert(tv[j as int] == (opt_view(targets@[j as int].0), opt_view(targets@[j as int].1)));
        if !is_page(&targets[j].0) {
            if let Some(ws) = &targets[j].1 {
                return Some(ws.clone());
            }
        }
        j += 1;
    }
    None
}

// ---------------------------------------------------------------------------
// Pages and login
// ---------------------------------------------------------------------------

/// What one look at a page found.
#[derive(Debug)]
pub struct PageProbe {
    pub ready: bool,
    pub has_password: bool,
    pub frames: Vec<String>,
    pub url: String,
    pub title: String,
}

/// `looks_like_login(state)`: a password field, or a login / SSO address.
pub open spec fn login_page(has_password: bool, url: Seq<char>) -> bool {
    let u = lowercase(url);
    has_password || contains(u, "sso.hotmart"@) || contains(u, "/login"@) || contains(u, "account.hotmart"@)
        || contains(u, "signin"@)
}

/// `looks_like_login(state)`.
pub fn looks_like_login(state: &PageProbe) -> (r: bool)
    ensures
        r == login_page(state.has_password, state.url@),
{
    let lower = to_lowercase(state.url.as_str());
    let u = chars_of(lower.as_str());
    state.has_password || contains_str(&u, "sso.hotmart") || contains_str(&u, "/login")
        || contains_str(&u, "account.hotmart") || contains_str(&u, "signin")
}

/// `json_escape(s)`: backslashes, quotes, `\n` and `\r` escaped for a
/// JavaScript double-quoted string.
pub open spec fn js_escaped(s: Seq<char>) -> Seq<char> {
    replace_all(
        replace_all(replace_all(replace_all(s, "\\"@, "\\\\"@), "\""@, "\\\""@), "\n"@, "\\n"@),
        "\r"@,
        "\\r"@,
    )
}

/// `json_escape(s)`.
pub fn json_escape(s: &str) -> (r: String)
    ensures
        r@ == js_escaped(s@),
{
    let v = chars_of(s);
    let a = replace_exec(&v, "\\", "\\\\");
    let b = replace_exec(&a, "\"", "\\\"");
    let c = replace_exec(&b, "\n", "\\n");
    let d = replace_exec(&c, "\r", "\\r");
    string_of(&d)
}

/// The script that fills the login form with `email` and `password`
/// (escaped) and reports whether both fields were found.
pub open spec fn login_fill_script(email: Seq<char>, password: Seq<char>) -> Seq<char> {
    "(function(){\n                        var eF=document.querySelector('input[type=email], input[name*=email i], input[name=login], input[name=user], input[type=text]');\n                        var pF=document.querySelector('input[type=password]');\n                        if(eF){eF.value=\""@
        + js_escaped(email)
        + "\";eF.dispatchEvent(new Event('input',{bubbles:true}));eF.dispatchEvent(new Event('change',{bubbles:true}));}\n                        if(pF){pF.value=\""@
        + js_escaped(password)
        + "\";pF.dispatchEvent(new Event('input',{bubbles:true}));pF.dispatchEvent(new Event('change',{bubbles:true}));}\n                        return !!(eF&&pF);\n                    })()"@
}

/// The form-filling script of `extract_iframes` and `login_navigate`.
pub fn login_fill_js(email: &str, password: &str) -> (r: String)
    ensures
        r@ == login_fill_script(email@, password@),
{
    let e = json_escape(email);
    let p = json_escape(password);
    let mut v: Vec<char> = Vec::new();
    push_str(
        &mut v,
        "(function(){\n                        var eF=document.querySelector('input[type=email], input[name*=email i], input[name=login], input[name=user], input[type=text]');\n                        var pF=document.querySelector('input[type=password]');\n                        if(eF){eF.value=\"",
    );
    push_str(&mut v, e.as_str());
    push_str(
        &mut v,
        "\";eF.dispatchEvent(new Event('input',{bubbles:true}));eF.dispatchEvent(new Event('change',{bubbles:true}));}\n                        if(pF){pF.value=\"",
    );
    push_str(&mut v, p.as_str());
    push_str(
        &mut v,
        "\";pF.dispatchEvent(new Event('input',{bubbles:true}));pF.dispatchEvent(new Event('change',{bubbles:true}));}\n                        return !!(eF&&pF);\n                    })()",
    );
    string_of(&v)
}

// ---------------------------------------------------------------------------
// Authenticated HLS sniffing
// ---------------------------------------------------------------------------

/// A stream captured live, with the Referer needed to fetch it.
#[derive(Debug)]
pub struct HlsHit {
    pub m3u8_url: String,
    pub referer: Option<String>,
    pub title: Option<String>,
}

/// An HLS playlist request worth keeping: a stream URL that names `.m3u8`.
pub open spec fn m3u8_hit(url: Seq<char>, content_type: Seq<char>) -> bool {
    url.len() > 0 && session_stream(url, content_type) && regex_is_match("(?i)\\.m3u8"@, url)
}

/// A master playlist, by its name.
pub open spec fn master_like(url: Seq<char>) -> bool {
    contains(lowercase(url), "master"@) || contains(lowercase(url), "playlist.m3u8"@)
}

/// The playlist kept by `sniff_m3u8_loop`: the first hit, replaced once by
/// the first master playlist if the first hit was not one.
pub struct SniffBest {
    pub best: Option<(String, Option<String>)>,
    pub best_is_master: bool,
}

pub open spec fn best_view(b: Option<(String, Option<String>)>) -> Option<(Seq<char>, Option<Seq<char>>)> {
    match b {
        Some(p) => Some((p.0@, opt_view(p.1))),
        None => None,
    }
}

/// What one event does to the kept playlist (`best`, `best_is_master`).
pub open spec fn sniff_effect(best: Option<(Seq<char>, Option<Seq<char>>)>, is_master: bool, url: Seq<char>, referer: Option<Seq<char>>, content_type: Seq<char>) -> (Option<(Seq<char>, Option<Seq<char>>)>, bool) {
    if !m3u8_hit(url, content_type) {
        (best, is_master)
    } else if best is None || (master_like(url) && !is_master) {
        (Some((url, referer)), master_like(url))
    } else {
        (best, is_master)
    }
}

impl SniffBest {
    /// Nothing kept yet.
    pub fn new() -> (r: Self)
        ensures
            r.best is None,
            !r.best_is_master,
    {
        SniffBest { best: None, best_is_master: false }
    }

    /// Takes one network event (URL, the Referer it was sent with, content
    /// type); tells whether it was an HLS playlist.
    pub fn offer(&mut self, url: &str, referer: Option<String>, content_type: &str) -> (hit: bool)
        ensures
            hit == m3u8_hit(url@, content_type@),
            (best_view(final(self).best), final(self).best_is_master) == sniff_effect(
                best_view(old(self).best),
                old(self).best_is_master,
                url@,
                opt_view(referer),
                content_type@,
            ),
    {
        let u = chars_of(url);
        if u.len() == 0 || !session_is_stream_url(url, content_type) {
            return false;
        }
        let p = str_to_string("(?i)\\.m3u8");
        if !is_match(p.as_str(), url) {
            return false;
        }
        let lower = to_lowercase(url);
        let lv = chars_of(lower.as_str());
        let is_master = contains_str(&lv, "master") || contains_str(&lv, "playlist.m3u8");
        if self.best.is_none() || (is_master && !self.best_is_master) {
            self.best = Some((str_to_string(url), referer));
            self.best_is_master = is_master;
        }
        true
    }
}

/// How long the sniffer waits for a master playlist after its first hit, in nanoseconds.
pub const SNIFF_GRACE_NS: u64 = 2_000_000_000;

/// How often the sniffer clicks play while nothing is found, in nanoseconds.
pub const SNIFF_CLICK_EVERY_NS: u64 = 4_000_000_000;

/// What the sniffer does at the start of a round.
#[derive(Debug, Clone, Copy, PartialEq, Eq, Structural)]
pub enum SniffAction {
    /// End the session with what is kept.
    Stop,
    /// Click play again, then read the next event.
    ClickThenRead,
    /// Read the next event.
    Read,
}

/// The sniffer's decision at the start of a round: stop at the deadline, or
/// once something is kept and it is a master playlist or more than
/// [`SNIFF_GRACE_NS`] have passed since the first hit; otherwise click play
/// when nothing is found and more than [`SNIFF_CLICK_EVERY_NS`] have passed
/// since the last click.
pub fn sniff_next_action(ns_left: u64, ns_since_found: Option<u64>, best_is_master: bool, ns_since_click: u64) -> (r: SniffAction)
    ensures
        r == (if ns_left == 0 || (ns_since_found matches Some(t) && (best_is_master || t > SNIFF_GRACE_NS)) {
            SniffAction::Stop
        } else if ns_since_found is None && ns_since_click > SNIFF_CLICK_EVERY_NS {
            SniffAction::ClickThenRead
        } else {
            SniffAction::Read
        }),
{
    if ns_left == 0 {
        return SniffAction::Stop;
    }
    match ns_since_found {
        Some(t) => if best_is_master || t > SNIFF_GRACE_NS {
            SniffAction::Stop
        } else {
            SniffAction::Read
        },
        None => if ns_since_click > SNIFF_CLICK_EVERY_NS {
            SniffAction::ClickThenRead
        } else {
            SniffAction::Read
        },
    }
}

/// Law: once a master playlist is kept, no later event replaces it; and a
/// kept playlist is only ever replaced by a master one.
pub proof fn lemma_sniff_keeps_master(best: Option<(Seq<char>, Option<Seq<char>>)>, is_master: bool, url: Seq<char>, referer: Option<Seq<char>>, ct: Seq<char>)
    ensures
        best is Some && is_master ==> sniff_effect(best, is_master, url, referer, ct) == (best, is_master),
        best is Some && sniff_effect(best, is_master, url, referer, ct).0 != best ==> sniff_effect(
            best,
            is_master,
            url,
            referer,
            ct,
        ).1,
        best is Some ==> sniff_effect(best, is_master, url, referer, ct).0 is Some,
{
}

// ---------------------------------------------------------------------------
// MemberKit course tree
// ---------------------------------------------------------------------------

/// A lesson of a MemberKit course.
#[derive(Debug)]
pub struct MemberkitLesson {
    pub module_index: usize,
    pub module_name: String,
    pub lesson_index: usize,
    pub title: String,
    pub lesson_url: String,
    pub vimeo_id: Option<String>,
    /// Materials of the lesson (name, URL).
    pub attachments: Vec<(String, String)>,
}

pub struct MemberkitLessonView {
    pub module_index: usize,
    pub module_name: Seq<char>,
    pub lesson_index: usize,
    pub title: Seq<char>,
    pub lesson_url: Seq<char>,
    pub vimeo_id: Option<Seq<char>>,
    pub attachments: Seq<(Seq<char>, Seq<char>)>,
}

impl View for MemberkitLesson {
    type V = MemberkitLessonView;

    open spec fn view(&self) -> MemberkitLessonView {
        MemberkitLessonView {
            module_index: self.module_index,
            module_name: self.module_name@,
            lesson_index: self.lesson_index,
            title: self.title@,
            lesson_url: self.lesson_url@,
            vimeo_id: opt_view(self.vimeo_id),
            attachments: pairs_view(self.attachments@),
        }
    }
}

/// The attachments `(name, url)` that have an address, in order.
pub open spec fn with_address(s: Seq<(Seq<char>, Seq<char>)>) -> Seq<(Seq<char>, Seq<char>)>
    decreases s.len(),
{
    if s.len() == 0 {
        seq![]
    } else if s.last().1.len() > 0 {
        with_address(s.drop_last()).push(s.last())
    } else {
        with_address(s.drop_last())
    }
}

/// Attaches to a lesson the files listed on its page, `(name, url)`, leaving
/// out those without an address.
pub fn add_attachments(lesson: &mut MemberkitLesson, found: &Vec<(String, String)>)
    ensures
        final(lesson)@ == (MemberkitLessonView {
            attachments: old(lesson)@.attachments + with_address(pairs_view(found@)),
            ..old(lesson)@
        }),
{
    let ghost start = lesson@;
    let ghost fv = pairs_view(found@);
    let mut i: usize = 0;
    while i < found.len()
        invariant
            i <= found@.len(),
            fv == pairs_view(found@),
            lesson@ == (MemberkitLessonView {
                attachments: start.attachments + with_address(fv.take(i as int)),
                ..start
            }),
        decreases found@.len() - i,
    {
        proof {
            assert(fv.take(i + 1).drop_last() == fv.take(i as int));
            assert(fv.take(i + 1).last() == fv[i as int]);
        }
        let url = chars_of(found[i].1.as_str());
        if url.len() > 0 {
            let ghost before = lesson.attachments@;
            lesson.attachments.push((found[i].0.clone(), found[i].1.clone()));
            proof {
                assert(pairs_view(lesson.attachments@) == pairs_view(before).push(fv[i as int]));
            }
        }
        i += 1;
    }
    assert(fv.take(found@.len() as int) == fv);
}


/// One entry scraped from a course's root page, in page order.
#[derive(Debug)]
pub enum ScrapedItem {
    /// A "Módulo N …" heading (its text, when it is a string).
    Module(Option<String>),
    /// A lesson link (title and address, when they are strings).
    Lesson(Option<String>, Option<String>),
    /// Anything else.
    Other,
}

pub enum ScrapedItemView {
    Module(Option<Seq<char>>),
    Lesson(Option<Seq<char>>, Option<Seq<char>>),
    Other,
}

impl View for ScrapedItem {
    type V = ScrapedItemView;

    open spec fn view(&self) -> ScrapedItemView {
        match self {
            ScrapedItem::Module(n) => ScrapedItemView::Module(opt_view(*n)),
            ScrapedItem::Lesson(t, h) => ScrapedItemView::Lesson(opt_view(*t), opt_view(*h)),
            ScrapedItem::Other => ScrapedItemView::Other,
        }
    }
}

pub open spec fn module_number_pattern() -> Seq<char> {
    "(?i)m[oó]dulo\\s+(\\d+)"@
}

pub open spec fn lesson_number_pattern() -> Seq<char> {
    "(?i)aula\\s+(\\d+)"@
}

/// The number that `pattern` captures in `text` (`parse::<usize>`), else `fallback`.
pub open spec fn number_or(pattern: Seq<char>, text: Seq<char>, fallback: usize) -> usize {
    match regex_group1(pattern, text) {
        Some(d) => match parse_u64(d) {
            Some(v) => if v <= usize::MAX {
                v as usize
            } else {
                fallback
            },
            None => fallback,
        },
        None => fallback,
    }
}

pub open spec fn text_or(t: Option<Seq<char>>, dflt: Seq<char>) -> Seq<char> {
    match t {
        Some(s) => s,
        None => dflt,
    }
}

/// Reading state: modules seen, current module number and name, lessons
/// seen in it, and the lessons listed.
pub struct ScrapeState {
    pub seq_module: usize,
    pub module_index: usize,
    pub module_name: Seq<char>,
    pub lesson_in_module: usize,
    pub lessons: Seq<MemberkitLessonView>,
}

pub open spec fn inc(n: usize) -> usize {
    if n == usize::MAX {
        n
    } else {
        (n + 1) as usize
    }
}

/// What one scraped item does to the list of lessons.
pub open spec fn scrape_step(st: ScrapeState, item: ScrapedItemView) -> ScrapeState {
    match item {
        ScrapedItemView::Module(name) => {
            let seq_module = inc(st.seq_module);
            let module_name = text_or(name, "Módulo"@);
            ScrapeState {
                seq_module,
                module_index: number_or(module_number_pattern(), module_name, seq_module),
                module_name,
                lesson_in_module: 0,
                ..st
            }
        },
        ScrapedItemView::Lesson(title, href) => {
            let lesson_in_module = inc(st.lesson_in_module);
            let t = text_or(title, "Aula"@);
            let lesson = MemberkitLessonView {
                module_index: st.module_index,
                module_name: if st.module_name.len() == 0 {
                    "Aulas"@
                } else {
                    st.module_name
                },
                lesson_index: number_or(lesson_number_pattern(), t, lesson_in_module),
                title: t,
                lesson_url: text_or(href, seq![]),
                vimeo_id: None,
                attachments: seq![],
            };
            ScrapeState { lesson_in_module, lessons: st.lessons.push(lesson), ..st }
        },
        ScrapedItemView::Other => st,
    }
}

pub open spec fn scrape_fold(items: Seq<ScrapedItemView>, st: ScrapeState) -> ScrapeState
    decreases items.len(),
{
    if items.len() == 0 {
        st
    } else {
        scrape_fold(items.drop_first(), scrape_step(st, items[0]))
    }
}

/// The lessons of a scraped course page, in page order.
pub open spec fn scraped_lessons(items: Seq<ScrapedItemView>) -> Seq<MemberkitLessonView> {
    scrape_fold(
        items,
        ScrapeState { seq_module: 0, module_index: 0, module_name: seq![], lesson_in_module: 0, lessons: seq![] },
    ).lessons
}

fn number_or_exec(pattern: &str, text: &str, fallback: usize) -> (r: usize)
    ensures
        r == number_or(pattern@, text@, fallback),
{
    match first_group1(pattern, text) {
        Some(d) => {
            let dv = chars_of(d.as_str());
            match parse_u64_exec(&dv) {
                Some(v) => if v <= usize::MAX as u64 {
                    v as usize
                } else {
                    fallback
                },
                None => fallback,
            }
        },
        None => fallback,
    }
}

fn inc_exec(n: usize) -> (r: usize)
    ensures
        r == inc(n),
{
    if n == usize::MAX {
        n
    } else {
        n + 1
    }
}

pub open spec fn mk_lessons_view(v: Seq<MemberkitLesson>) -> Seq<MemberkitLessonView> {
    v.map_values(|l: MemberkitLesson| l@)
}

/// `sniff_memberkit_course`'s listing step: lessons from the scraped items,
/// numbered by "Módulo N" / "Aula N" when the text has them, else by order.
pub fn memberkit_lessons(items: &Vec<ScrapedItem>) -> (r: Vec<MemberkitLesson>)
    ensures
        mk_lessons_view(r@) == scraped_lessons(items@.map_values(|i: ScrapedItem| i@)),
{
    let ghost iv = items@.map_values(|i: ScrapedItem| i@);
    let mut seq_module: usize = 0;
    let mut module_index: usize = 0;
    let mut module_name = String::new();
    let mut lesson_in_module: usize = 0;
    let mut lessons: Vec<MemberkitLesson> = Vec::new();
    let ghost init = ScrapeState { seq_module: 0, module_index: 0, module_name: seq![], lesson_in_module: 0, lessons: seq![] };
    proof {
        assert(mk_lessons_view(lessons@) =~= Seq::<MemberkitLessonView>::empty());
        assert(iv.skip(0) == iv);
    }
    let mut i: usize = 0;
    while i < items.len()
        invariant
            i <= items@.len(),
            iv == items@.map_values(|i: ScrapedItem| i@),
            scrape_fold(iv, init) == scrape_fold(iv.skip(i as int), ScrapeState {
                seq_module,
                module_index,
                module_name: module_name@,
                lesson_in_module,
                lessons: mk_lessons_view(lessons@),
            }),
        decreases items@.len() - i,
    {
        proof {
            assert(iv.skip(i as int)[0] == items@[i as int]@);
            assert(iv.skip(i as int).drop_first() == iv.skip(i + 1));
        }
        match &items[i] {
            ScrapedItem::Module(name) => {
                seq_module = inc_exec(seq_module);
                module_name = match name {
                    Some(n) => n.clone(),
                    None => str_to_string("Módulo"),
                };
                let p = str_to_string("(?i)m[oó]dulo\\s+(\\d+)");
                module_index = number_or_exec(p.as_str(), module_name.as_str(), seq_module);
                lesson_in_module = 0;
            },
            ScrapedItem::Lesson(title, href) => {
                lesson_in_module = inc_exec(lesson_in_module);
                let t = match title {
                    Some(t) => t.clone(),
                    None => str_to_string("Aula"),
                };
                let p = str_to_string("(?i)aula\\s+(\\d+)");
                let lesson_index = number_or_exec(p.as_str(), t.as_str(), lesson_in_module);
                let mn = chars_of(module_name.as_str());
                let l = MemberkitLesson {
                    module_index,
                    module_name: if mn.len() == 0 { str_to_string("Aulas") } else { module_name.clone() },
                    lesson_index,
                    title: t,
                    lesson_url: match href {
                        Some(h) => h.clone(),
                        None => String::new(),
                    },
                    vimeo_id: None,
                    attachments: Vec::new(),
                };
                let ghost l0 = mk_lessons_view(lessons@);
                proof {
                    assert(pairs_view(l.attachments@) =~= Seq::<(Seq<char>, Seq<char>)>::empty());
                }
                lessons.push(l);
                assert(mk_lessons_view(lessons@) =~= l0.push(l@));
            },
            ScrapedItem::Other => {},
        }
        i += 1;
    }
    proof {
        assert(iv.skip(i as int).len() == 0);
    }
    lessons
}

// ---------------------------------------------------------------------------
// Hotmart course tree
// ---------------------------------------------------------------------------

/// A lesson of a Hotmart course; the playlist is resolved when downloading.
#[derive(Debug)]
pub struct CourseLesson {
    pub module_index: usize,
    pub module_name: String,
    pub lesson_index: usize,
    pub title: String,
    pub content_url: String,
}

pub struct CourseLessonView {
    pub module_index: usize,
    pub module_name: Seq<char>,
    pub lesson_index: usize,
    pub title: Seq<char>,
    pub content_url: Seq<char>,
}

impl View for CourseLesson {
    type V = CourseLessonView;

    open spec fn view(&self) -> CourseLessonView {
        CourseLessonView {
            module_index: self.module_index,
            module_name: self.module_name@,
            lesson_index: self.lesson_index,
            title: self.title@,
            content_url: self.content_url@,
        }
    }
}

/// A page of the course navigation (`/v1/navigation`), fields as found.
#[derive(Debug)]
pub struct NavPage {
    pub name: Option<String>,
    pub hash: Option<String>,
    pub has_player_media: Option<bool>,
    pub first_media_type: Option<String>,
}

/// A module of the course navigation.
#[derive(Debug)]
pub struct NavModule {
    pub name: Option<String>,
    pub pages: Option<Vec<NavPage>>,
}

pub struct NavPageView {
    pub name: Option<Seq<char>>,
    pub hash: Option<Seq<char>>,
    pub has_player_media: Option<bool>,
    pub first_media_type: Option<Seq<char>>,
}

impl View for NavPage {
    type V = NavPageView;

    open spec fn view(&self) -> NavPageView {
        NavPageView {
            name: opt_view(self.name),
            hash: opt_view(self.hash),
            has_player_media: self.has_player_media,
            first_media_type: opt_view(self.first_media_type),
        }
    }
}

/// A page is a video lesson: it has a hash, player media, and its first
/// media is `VIDEO` (ASCII case ignored).
pub open spec fn video_page(p: NavPageView) -> bool {
    text_or(p.hash, seq![]).len() > 0 && p.has_player_media == Some(true) && match p.first_media_type {
        Some(t) => eq_ignore_ascii_case(t, "VIDEO"@),
        None => false,
    }
}

/// The address of a lesson's content: the course URL up to `/content/`.
pub open spec fn content_base(course_url: Seq<char>) -> Seq<char> {
    match find(course_url, "/content/"@) {
        Some(i) => course_url.take(i) + "/content/"@,
        None => course_url + "/content/"@,
    }
}

/// The lesson that page `li` (0-based) of module `mi` (0-based) gives.
pub open spec fn lesson_of(base: Seq<char>, mi: int, mname: Seq<char>, li: int, p: NavPageView) -> CourseLessonView {
    CourseLessonView {
        module_index: (mi + 1) as usize,
        module_name: mname,
        lesson_index: (li + 1) as usize,
        title: text_or(p.name, "Aula"@),
        content_url: base + text_or(p.hash, seq![]),
    }
}

/// The video lessons among the first `n` pages of module `mi`, in order.
pub open spec fn module_lessons(base: Seq<char>, mi: int, mname: Seq<char>, pages: Seq<NavPageView>, n: int) -> Seq<CourseLessonView>
    decreases n,
{
    if n <= 0 || n > pages.len() {
        seq![]
    } else {
        let rest = module_lessons(base, mi, mname, pages, n - 1);
        if video_page(pages[n - 1]) {
            rest.push(lesson_of(base, mi, mname, n - 1, pages[n - 1]))
        } else {
            rest
        }
    }
}

/// The lessons a whole module gives.
pub open spec fn module_part(base: Seq<char>, mi: int, m: NavModule) -> Seq<CourseLessonView> {
    match m.pages {
        Some(ps) => module_lessons(base, mi, text_or(opt_view(m.name), "Módulo"@), nav_pages_view(ps@), ps@.len() as int),
        None => seq![],
    }
}

/// The lessons of the first `n` modules of the navigation, in order.
pub open spec fn navigation_lessons(base: Seq<char>, modules: Seq<NavModule>, n: int) -> Seq<CourseLessonView>
    decreases n,
{
    if n <= 0 || n > modules.len() {
        seq![]
    } else {
        navigation_lessons(base, modules, n - 1) + module_part(base, n - 1, modules[n - 1])
    }
}

pub open spec fn nav_pages_view(v: Seq<NavPage>) -> Seq<NavPageView> {
    v.map_values(|p: NavPage| p@)
}

pub open spec fn course_lessons_view(v: Seq<CourseLesson>) -> Seq<CourseLessonView> {
    v.map_values(|l: CourseLesson| l@)
}

fn video_page_exec(p: &NavPage) -> (r: bool)
    ensures
        r == video_page(p@),
{
    let has_hash = match &p.hash {
        Some(h) => {
            let hv = chars_of(h.as_str());
            hv.len() > 0
        },
        None => false,
    };
    let media = match p.has_player_media {
        Some(b) => b,
        None => false,
    };
    let video = match &p.first_media_type {
        Some(t) => {
            let tv = chars_of(t.as_str());
            eq_ignore_ascii_case_str(&tv, "VIDEO")
        },
        None => false,
    };
    has_hash && media && video
}

/// `list_course`'s listing step: the video lessons of the navigation, with
/// 1-based module and page numbers and content URLs under the course's
/// `/content/` address.
pub fn course_lessons(course_url: &str, modules: &Vec<NavModule>) -> (r: Vec<CourseLesson>)
    ensures
        course_lessons_view(r@) == navigation_lessons(content_base(course_url@), modules@, modules@.len() as int),
{
    let cv = chars_of(course_url);
    let marker = chars_of("/content/");
    let mut base: Vec<char> = Vec::new();
    match find_from_exec(&cv, &marker, 0) {
        Some(i) => {
            proof {
                lemma_find_from(cv@, marker@, 0);
            }
            push_range(&mut base, &cv, 0, i);
        },
        None => {
            push_range(&mut base, &cv, 0, cv.len());
        },
    }
    push_str(&mut base, "/content/");
    proof {
        assert(cv@.subrange(0, cv@.len() as int) == cv@);
        assert(base@ == content_base(course_url@));
    }
    let ghost b = base@;
    let mut out: Vec<CourseLesson> = Vec::new();
    let mut mi: usize = 0;
    while mi < modules.len()
        invariant
            mi <= modules@.len(),
            base@ == b,
            b == content_base(course_url@),
            course_lessons_view(out@) == navigation_lessons(b, modules@, mi as int),
        decreases modules@.len() - mi,
    {
        let module = &modules[mi];
        let mname = match &module.name {
            Some(n) => n.clone(),
            None => str_to_string("Módulo"),
        };
        let module_number = mi + 1;
        let ghost o_mod = course_lessons_view(out@);
        if let Some(pages) = &module.pages {
            let ghost pv = nav_pages_view(pages@);
            let mut li: usize = 0;
            while li < pages.len()
                invariant
                    li <= pages@.len(),
                    mi < modules@.len(),
                    module_number == mi + 1,
                    pv == nav_pages_view(pages@),
                    mname@ == text_or(opt_view(modules@[mi as int].name), "Módulo"@),
                    base@ == b,
                    course_lessons_view(out@) == o_mod + module_lessons(b, mi as int, mname@, pv, li as int),
                decreases pages@.len() - li,
            {
                let page = &pages[li];
                proof {
                    assert(pv[li as int] == page@);
                }
                if video_page_exec(page) {
                    let title = match &page.name {
                        Some(n) => n.clone(),
                        None => str_to_string("Aula"),
                    };
                    let mut url: Vec<char> = Vec::new();
                    push_range(&mut url, &base, 0, base.len());
                    let hash = match &page.hash {
                        Some(h) => h.clone(),
                        None => String::new(),
                    };
                    push_str(&mut url, hash.as_str());
                    proof {
                        assert(base@.subrange(0, base@.len() as int) == base@);
                    }
                    let l = CourseLesson {
                        module_index: module_number,
                        module_name: mname.clone(),
                        lesson_index: li + 1,
                        title,
                        content_url: string_of(&url),
                    };
                    let ghost o0 = course_lessons_view(out@);
                    out.push(l);
                    proof {
                        assert(l@ == lesson_of(b, mi as int, mname@, li as int, pv[li as int]));
                        assert(course_lessons_view(out@) =~= o0.push(l@));
                    }
                }
                li += 1;
            }
            proof {
                assert(module_part(b, mi as int, modules@[mi as int]) == module_lessons(b, mi as int, mname@, pv, pages@.len() as int));
            }
        }
        proof {
            assert(course_lessons_view(out@) =~= navigation_lessons(b, modules@, mi as int) + module_part(b, mi as int, modules@[mi as int]));
        }
        mi += 1;
    }
    out
}

// ---------------------------------------------------------------------------
// Response bodies
// ---------------------------------------------------------------------------

/// Whether a URL contains one of the `needles` (`capture_api_json`).
pub open spec fn has_needle(url: Seq<char>, needles: Seq<Seq<char>>) -> bool {
    exists|i: int| 0 <= i < needles.len() && contains(url, #[trigger] needles[i])
}

/// `needles.iter().any(|n| u.contains(n))`.
pub fn matches_any_needle(url: &str, needles: &Vec<String>) -> (r: bool)
    ensures
        r == has_needle(url@, needles@.map_values(|s: String| s@)),
{
    let u = chars_of(url);
    let ghost nv = needles@.map_values(|s: String| s@);
    let mut i: usize = 0;
    while i < needles.len()
        invariant
            i <= needles@.len(),
            u@ == url@,
            nv == needles@.map_values(|s: String| s@),
            forall|k: int| 0 <= k < i ==> !contains(url@, #[trigger] nv[k]),
        decreases needles@.len() - i,
    {
        assert(nv[i as int] == needles@[i as int]@);
        if contains_str(&u, needles[i].as_str()) {
            return true;
        }
        i += 1;
    }
    false
}

/// The requests whose response body is wanted (`capture_response_body_matching`):
/// the ids of responses whose address holds a needle, in the order seen.
#[derive(Debug)]
pub struct BodyCapture {
    ids: Vec<String>,
}

impl View for BodyCapture {
    type V = Seq<Seq<char>>;

    closed spec fn view(&self) -> Seq<Seq<char>> {
        self.ids@.map_values(|s: String| s@)
    }
}

impl BodyCapture {
    /// Nothing tracked yet.
    pub fn new() -> (r: Self)
        ensures
            r@ == Seq::<Seq<char>>::empty(),
    {
        let r = BodyCapture { ids: Vec::new() };
        assert(r@ =~= Seq::<Seq<char>>::empty());
        r
    }

    /// A `Network.responseReceived` event: its request is tracked when the
    /// address holds a needle and the request id is not empty.
    pub fn on_response(&mut self, url: &str, request_id: &str, needles: &Vec<String>)
        ensures
            final(self)@ == (if has_needle(url@, needles@.map_values(|s: String| s@)) && request_id@.len() > 0 {
                old(self)@.push(request_id@)
            } else {
                old(self)@
            }),
    {
        let rid = chars_of(request_id);
        if matches_any_needle(url, needles) && rid.len() > 0 {
            let ghost before = self@;
            let id = str_to_string(request_id);
            self.ids.push(id);
            assert(self@ =~= before.push(request_id@));
        }
    }

    /// A `Network.loadingFinished` event: whether its body is fetched now.
    pub fn fetch_now(&self, request_id: &str) -> (r: bool)
        ensures
            r == self@.contains(request_id@),
    {
        let rid = str_to_string(request_id);
        let mut i: usize = 0;
        while i < self.ids.len()
            invariant
                i <= self.ids@.len(),
                rid@ == request_id@,
                forall|k: int| 0 <= k < i ==> self.ids@[k]@ != request_id@,
            decreases self.ids@.len() - i,
        {
            if self.ids[i] == rid {
                assert(self@[i as int] == request_id@);
                return true;
            }
            i += 1;
        }
        assert forall|k: int| 0 <= k < self@.len() implies self@[k] != request_id@ by {
            assert(self@[k] == self.ids@[k]@);
        }
        false
    }

    /// The tracked requests to try when the listening time is over: the
    /// newest first.
    pub fn fallback_order(&self) -> (r: Vec<String>)
        ensures
            r@.map_values(|s: String| s@) == self@.reverse(),
    {
        let mut r: Vec<String> = Vec::new();
        let mut k = self.ids.len();
        while k > 0
            invariant
                k <= self.ids@.len(),
                r@.map_values(|s: String| s@) == self@.subrange(k as int, self@.len() as int).reverse(),
            decreases k,
        {
            let ghost r0 = r@.map_values(|s: String| s@);
            let id = self.ids[k - 1].clone();
            r.push(id);
            proof {
                assert(self@[k - 1] == self.ids@[k - 1]@);
                assert(r@.map_values(|s: String| s@) =~= r0.push(self@[k - 1]));
                assert(self@.subrange(k - 1, self@.len() as int).reverse() =~= self@.subrange(
                    k as int,
                    self@.len() as int,
                ).reverse().push(self@[k - 1]));
            }
            k -= 1;
        }
        assert(self@.subrange(0, self@.len() as int) == self@);
        r
    }
}

/// What `base64::engine::general_purpose::STANDARD.decode(text)` gives, if
/// the text is valid standard Base64.
pub uninterp spec fn base64_standard_decoded(text: Seq<char>) -> Option<Seq<u8>>;

/// `STANDARD.decode(text)` of the `base64` crate.
#[verifier::external_body]
fn base64_decode(text: &str) -> (r: Option<Vec<u8>>)
    ensures
        match r {
            Some(b) => base64_standard_decoded(text@) == Some(b@),
            None => base64_standard_decoded(text@) is None,
        },
{
    match base64::engine::general_purpose::STANDARD.decode(text) {
        Ok(b) => Some(b),
        Err(_) => None,
    }
}

/// `try_get_body`'s reading of `Network.getResponseBody`: nothing for an
/// empty body; a Base64 body decoded and read as UTF-8; otherwise the text.
pub open spec fn response_text(body: Seq<char>, base64_encoded: bool) -> Option<Seq<char>> {
    if body.len() == 0 {
        None
    } else if base64_encoded {
        match base64_standard_decoded(body) {
            Some(b) => if valid_utf8(b) {
                Some(decode_utf8(b))
            } else {
                None
            },
            None => None,
        }
    } else {
        Some(body)
    }
}

/// The text of a response body as the DevTools protocol returns it.
pub fn response_body_text(body: &str, base64_encoded: bool) -> (r: Option<String>)
    ensures
        opt_view(r) == response_text(body@, base64_encoded),
{
    let bv = chars_of(body);
    if bv.len() == 0 {
        return None;
    }
    if base64_encoded {
        match base64_decode(body) {
            Some(b) => utf8_to_string(b.as_slice()),
            None => None,
        }
    } else {
        Some(str_to_string(body))
    }
}

// ---------------------------------------------------------------------------
// Launching Chrome
// ---------------------------------------------------------------------------

/// Where Chrome or Chromium is looked for, in order.
pub open spec fn chrome_paths() -> Seq<Seq<char>> {
    seq![
        "/Applications/Google Chrome.app/Contents/MacOS/Google Chrome"@,
        "/Applications/Chromium.app/Contents/MacOS/Chromium"@,
        "/usr/bin/google-chrome"@,
        "/usr/bin/chromium-browser"@,
    ]
}

/// The places Chrome is looked for, in the order they are tried.
pub fn chrome_candidates() -> (r: Vec<String>)
    ensures
        r@.map_values(|s: String| s@) == chrome_paths(),
{
    let mut r: Vec<String> = Vec::new();
    r.push(str_to_string("/Applications/Google Chrome.app/Contents/MacOS/Google Chrome"));
    r.push(str_to_string("/Applications/Chromium.app/Contents/MacOS/Chromium"));
    r.push(str_to_string("/usr/bin/google-chrome"));
    r.push(str_to_string("/usr/bin/chromium-browser"));
    assert(r@.map_values(|s: String| s@) =~= chrome_paths());
    r
}

/// The first candidate that exists (`present[i]` tells whether candidate
/// `i` is on disk).
pub open spec fn first_present(paths: Seq<Seq<char>>, present: Seq<bool>, i: int) -> Option<Seq<char>>
    decreases paths.len() - i,
{
    if i < 0 || i >= paths.len() {
        None
    } else if i < present.len() && present[i] {
        Some(paths[i])
    } else {
        first_present(paths, present, i + 1)
    }
}

/// `find_chrome`: the installed Chrome, given which of the candidates of
/// [`chrome_candidates`] exist.
pub fn find_chrome(present: &Vec<bool>) -> (r: Option<String>)
    ensures
        opt_view(r) == first_present(chrome_paths(), present@, 0),
{
    let paths = chrome_candidates();
    let ghost pv = paths@.map_values(|s: String| s@);
    let mut i: usize = 0;
    while i < paths.len()
        invariant
            i <= paths@.len(),
            pv == paths@.map_values(|s: String| s@),
            pv == chrome_paths(),
            first_present(pv, present@, 0) == first_present(pv, present@, i as int),
        decreases paths@.len() - i,
    {
        assert(pv[i as int] == paths@[i as int]@);
        if i < present.len() && present[i] {
            return Some(paths[i].clone());
        }
        i += 1;
    }
    None
}

/// The command line of a headless Chrome on `port` with the profile
/// `profile_dir` and the window size `window` (`"W,H"`); `autoplay` lets
/// media start without a user gesture.
pub open spec fn headless_args(port: u16, profile_dir: Seq<char>, window: Seq<char>, autoplay: bool) -> Seq<Seq<char>> {
    let head = seq![
        "--headless=new"@,
        "--disable-gpu"@,
        "--no-first-run"@,
        "--no-default-browser-check"@,
        "--disable-extensions"@,
        "--disable-background-networking"@,
        "--disable-default-apps"@,
    ];
    let mid: Seq<Seq<char>> = if autoplay {
        seq!["--autoplay-policy=no-user-gesture-required"@]
    } else {
        seq![]
    };
    head + mid + seq![
        "--remote-debugging-port="@ + decimal(port as nat),
        "--user-data-dir="@ + profile_dir,
        "--window-size="@ + window,
        "about:blank"@,
    ]
}

/// Arguments of the headless Chrome sessions (course listing and scraping,
/// lesson sniffing, page evaluation).
pub fn headless_chrome_args(port: u16, profile_dir: &str, window: &str, autoplay: bool) -> (r: Vec<String>)
    ensures
        r@.map_values(|s: String| s@) == headless_args(port, profile_dir@, window@, autoplay),
{
    let mut r: Vec<String> = Vec::new();
    r.push(str_to_string("--headless=new"));
    r.push(str_to_string("--disable-gpu"));
    r.push(str_to_string("--no-first-run"));
    r.push(str_to_string("--no-default-browser-check"));
    r.push(str_to_string("--disable-extensions"));
    r.push(str_to_string("--disable-background-networking"));
    r.push(str_to_string("--disable-default-apps"));
    if autoplay {
        r.push(str_to_string("--autoplay-policy=no-user-gesture-required"));
    }
    let mut p: Vec<char> = Vec::new();
    push_str(&mut p, "--remote-debugging-port=");
    let d = decimal_exec(port as u64);
    push_range(&mut p, &d, 0, d.len());
    assert(d@.subrange(0, d@.len() as int) == d@);
    r.push(string_of(&p));
    let mut u: Vec<char> = Vec::new();
    push_str(&mut u, "--user-data-dir=");
    push_str(&mut u, profile_dir);
    r.push(string_of(&u));
    let mut w: Vec<char> = Vec::new();
    push_str(&mut w, "--window-size=");
    push_str(&mut w, window);
    r.push(string_of(&w));
    r.push(str_to_string("about:blank"));
    assert(r@.map_values(|s: String| s@) =~= headless_args(port, profile_dir@, window@, autoplay));
    r
}

/// `wait_page_settle` stops as soon as the page shows a frame or a
/// password field.
pub open spec fn settled(frames: Seq<String>, has_password: bool) -> bool {
    frames.len() > 0 || has_password
}

/// Whether a look at a page ends the wait for it to settle.
pub fn page_settled(probe: &PageProbe) -> (r: bool)
    ensures
        r == settled(probe.frames@, probe.has_password),
{
    probe.frames.len() > 0 || probe.has_password
}

/// What a page needs before its content can be read.
#[derive(Debug, Clone, Copy, PartialEq, Eq, Structural)]
pub enum LoginStep {
    /// No login form in the way.
    Ready,
    /// A login form, and credentials to fill it with.
    FillForm,
    /// A login form, and no (complete) credentials.
    NeedCredentials,
}

/// A page stopped at a login form: a password field and no frame.
pub open spec fn at_login_form(p: PageProbe) -> bool {
    p.has_password && p.frames@.len() == 0
}

/// `login_navigate`'s decision: fill the form only with a non-empty email
/// and password.
pub open spec fn login_step_of(p: PageProbe, email: Option<Seq<char>>, password: Option<Seq<char>>) -> LoginStep {
    if !at_login_form(p) {
        LoginStep::Ready
    } else {
        match (email, password) {
            (Some(e), Some(w)) => if e.len() > 0 && w.len() > 0 {
                LoginStep::FillForm
            } else {
                LoginStep::NeedCredentials
            },
            _ => LoginStep::NeedCredentials,
        }
    }
}

/// Whether the page is (still) at a login form.
pub fn at_login(probe: &PageProbe) -> (r: bool)
    ensures
        r == at_login_form(*probe),
{
    probe.has_password && probe.frames.len() == 0
}

/// What to do about logging in, after the page settled.
pub fn login_step(probe: &PageProbe, email: Option<&str>, password: Option<&str>) -> (r: LoginStep)
    ensures
        r == login_step_of(
            *probe,
            match email { Some(e) => Some(e@), None => None },
            match password { Some(w) => Some(w@), None => None },
        ),
{
    if !at_login(probe) {
        return LoginStep::Ready;
    }
    match (email, password) {
        (Some(e), Some(w)) => {
            let ev = chars_of(e);
            let wv = chars_of(w);
            if ev.len() > 0 && wv.len() > 0 {
                LoginStep::FillForm
            } else {
                LoginStep::NeedCredentials
            }
        },
        _ => LoginStep::NeedCredentials,
    }
}

// ---------------------------------------------------------------------------
// Visible Chrome and password login (Hotmart)
// ---------------------------------------------------------------------------

/// The command line of a visible Chrome (fewer bot checks; the user can
/// finish a login by hand) on `port` with the profile `profile_dir`.
pub open spec fn visible_args(port: u16, profile_dir: Seq<char>) -> Seq<Seq<char>> {
    seq![
        "--no-first-run"@,
        "--no-default-browser-check"@,
        "--disable-extensions"@,
        "--disable-background-networking"@,
        "--disable-default-apps"@,
        "--disable-blink-features=AutomationControlled"@,
        "--remote-debugging-port="@ + decimal(port as nat),
        "--user-data-dir="@ + profile_dir,
        "--window-size=1280,900"@,
        "about:blank"@,
    ]
}

/// Arguments of the visible Chrome of `sniff_hls_authenticated`.
pub fn visible_chrome_args(port: u16, profile_dir: &str) -> (r: Vec<String>)
    ensures
        r@.map_values(|s: String| s@) == visible_args(port, profile_dir@),
{
    let mut r: Vec<String> = Vec::new();
    r.push(str_to_string("--no-first-run"));
    r.push(str_to_string("--no-default-browser-check"));
    r.push(str_to_string("--disable-extensions"));
    r.push(str_to_string("--disable-background-networking"));
    r.push(str_to_string("--disable-default-apps"));
    r.push(str_to_string("--disable-blink-features=AutomationControlled"));
    let mut p: Vec<char> = Vec::new();
    push_str(&mut p, "--remote-debugging-port=");
    let d = decimal_exec(port as u64);
    push_range(&mut p, &d, 0, d.len());
    assert(d@.subrange(0, d@.len() as int) == d@);
    r.push(string_of(&p));
    let mut u: Vec<char> = Vec::new();
    push_str(&mut u, "--user-data-dir=");
    push_str(&mut u, profile_dir);
    r.push(string_of(&u));
    r.push(str_to_string("--window-size=1280,900"));
    r.push(str_to_string("about:blank"));
    assert(r@.map_values(|s: String| s@) =~= visible_args(port, profile_dir@));
    r
}

/// The form-filling script of the password login: the email only when its
/// field is still empty, the password always; reports whether it filled.
pub open spec fn password_fill_script(email: Seq<char>, password: Seq<char>) -> Seq<char> {
    "(function(){\n                var eF=document.querySelector('input[type=email], input[name*=email i], input[name=username], input[name=login], input[autocomplete=username], input[type=text]');\n                var pF=document.querySelector('input[type=password]');\n                var did=false;\n                if(eF && !eF.value){eF.value=\""@
        + js_escaped(email)
        + "\";eF.dispatchEvent(new Event('input',{bubbles:true}));eF.dispatchEvent(new Event('change',{bubbles:true}));did=true;}\n                if(pF){pF.value=\""@
        + js_escaped(password)
        + "\";pF.dispatchEvent(new Event('input',{bubbles:true}));pF.dispatchEvent(new Event('change',{bubbles:true}));did=true;}\n                return did;\n            })()"@
}

/// `password_login`'s form-filling script.
pub fn password_fill_js(email: &str, password: &str) -> (r: String)
    ensures
        r@ == password_fill_script(email@, password@),
{
    let e = json_escape(email);
    let p = json_escape(password);
    let mut v: Vec<char> = Vec::new();
    push_str(
        &mut v,
        "(function(){\n                var eF=document.querySelector('input[type=email], input[name*=email i], input[name=username], input[name=login], input[autocomplete=username], input[type=text]');\n                var pF=document.querySelector('input[type=password]');\n                var did=false;\n                if(eF && !eF.value){eF.value=\"",
    );
    push_str(&mut v, e.as_str());
    push_str(
        &mut v,
        "\";eF.dispatchEvent(new Event('input',{bubbles:true}));eF.dispatchEvent(new Event('change',{bubbles:true}));did=true;}\n                if(pF){pF.value=\"",
    );
    push_str(&mut v, p.as_str());
    push_str(
        &mut v,
        "\";pF.dispatchEvent(new Event('input',{bubbles:true}));pF.dispatchEvent(new Event('change',{bubbles:true}));did=true;}\n                return did;\n            })()",
    );
    string_of(&v)
}

/// Between password-login rounds: still on a login page (a password field,
/// or an SSO / account / login address).
pub open spec fn still_on_login(has_password: bool, url: Seq<char>) -> bool {
    let u = lowercase(url);
    has_password || contains(u, "sso.hotmart"@) || contains(u, "account.hotmart"@) || contains(u, "/login"@)
}

/// Whether another password-login round is needed.
pub fn login_round_needed(probe: &PageProbe) -> (r: bool)
    ensures
        r == still_on_login(probe.has_password, probe.url@),
{
    let lower = to_lowercase(probe.url.as_str());
    let u = chars_of(lower.as_str());
    probe.has_password || contains_str(&u, "sso.hotmart") || contains_str(&u, "account.hotmart")
        || contains_str(&u, "/login")
}

/// After a manual login: a page outside the lesson (`/content/`) needs the
/// lesson opened again.
pub fn needs_lesson_reopen(url: &str) -> (r: bool)
    ensures
        r == !contains(url@, "/content/"@),
{
    let u = chars_of(url);
    !contains_str(&u, "/content/")
}

/// The title a captured stream carries: the page title, unless blank.
pub fn hit_title(page_title: &str) -> (r: Option<String>)
    ensures
        match r {
            Some(t) => trim(page_title@).len() > 0 && t@ == page_title@,
            None => trim(page_title@).len() == 0,
        },
{
    let v = chars_of(page_title);
    let t = trimmed(&v, 0, v.len());
    assert(v@.subrange(0, v@.len() as int) == v@);
    if t.len() == 0 {
        None
    } else {
        Some(str_to_string(page_title))
    }
}

/// Numbering of the commands of one DevTools session.
#[derive(Debug)]
pub struct CdpConn {
    next: u64,
}

impl CdpConn {
    /// The number the next command gets.
    pub closed spec fn next_id_value(&self) -> u64 {
        self.next
    }

    /// A session whose first command is number one.
    pub fn new() -> (r: Self)
        ensures
            r.next_id_value() == 1,
    {
        CdpConn { next: 1 }
    }

    /// Takes the number of a new command; numbers count up by one (and wrap
    /// around, as an atomic counter does).
    pub fn take_id(&mut self) -> (r: u64)
        ensures
            r == old(self).next_id_value(),
            final(self).next_id_value() == (if r == u64::MAX {
                0
            } else {
                (r + 1) as u64
            }),
    {
        let id = self.next;
        self.next = if id == u64::MAX { 0 } else { id + 1 };
        id
    }
}

} // verus!
