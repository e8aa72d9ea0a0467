//! Site extractors: which extractor a URL calls for, the Vimeo player's
//! inline configuration, and the UNIP media API answer. Fetching and JSON
//! decoding are the application's part; they hand the values in.
use vstd::prelude::*;
use vstd::string::StringSliceAdditionalSpecFns;
use vstd::utf8::{decode_utf8, valid_utf8};
use crate::text::{
    chars_of, contains, contains_str, push_str, str_to_string, string_of, utf8_to_string,
};
use crate::m3u8::eq_chars;
use crate::patterns::{
    all_group1, first_group1, first_match_end, regex_first_match_end, regex_group1, regex_group1_all,
};
use crate::sniffer::pairs_view;
use crate::types::opt_view;
use crate::urls::{query_pairs, url_query_pairs};

verus! {

/// What an extractor found: the playlist URL, a title, headers to send.
#[derive(Debug)]
pub struct ExtractResult {
    pub m3u8_url: String,
    pub title: Option<String>,
    pub headers: Vec<(String, String)>,
}

pub struct ExtractResultView {
    pub m3u8_url: Seq<char>,
    pub title: Option<Seq<char>>,
    pub headers: Seq<(Seq<char>, Seq<char>)>,
}

impl View for ExtractResult {
    type V = ExtractResultView;

    open spec fn view(&self) -> ExtractResultView {
        ExtractResultView { m3u8_url: self.m3u8_url@, title: opt_view(self.title), headers: pairs_view(self.headers@) }
    }
}

pub open spec fn opt_extract_view(o: Option<ExtractResult>) -> Option<ExtractResultView> {
    match o {
        Some(e) => Some(e@),
        None => None,
    }
}

// ---------------------------------------------------------------------------
// Routing
// ---------------------------------------------------------------------------

/// Pattern of a Vimeo player URL; group 1 is the numeric video id.
pub open spec fn vimeo_pattern() -> Seq<char> {
    "(?:player\\.)?vimeo\\.com/(?:video/)?(\\d+)"@
}

/// `vimeo_id_from_url(url)`: the numeric id of a Vimeo (player) URL.
pub fn vimeo_id_from_url(url: &str) -> (r: Option<String>)
    ensures
        opt_view(r) == regex_group1(vimeo_pattern(), url@),
{
    let p = chars_of("(?:player\\.)?vimeo\\.com/(?:video/)?(\\d+)");
    let ps = string_of(&p);
    first_group1(ps.as_str(), url)
}

/// The extractor that `try_extract` uses for a URL.
#[derive(Debug)]
pub enum Extractor {
    /// UNIP's media API.
    Unip,
    /// The Vimeo player, with the video id.
    Vimeo(String),
    /// No known site.
    Unknown,
}

/// UNIP pages: `sistemas.unip.br` or `unip.br/ava`.
pub open spec fn is_unip_url(url: Seq<char>) -> bool {
    contains(url, "sistemas.unip.br"@) || contains(url, "unip.br/ava"@)
}

/// `try_extract(url)`'s choice: UNIP first, then a Vimeo player URL.
pub fn extractor_for(url: &str) -> (r: Extractor)
    ensures
        is_unip_url(url@) ==> r is Unip,
        !is_unip_url(url@) ==> match regex_group1(vimeo_pattern(), url@) {
            Some(id) => r matches Extractor::Vimeo(v) && v@ == id,
            None => r is Unknown,
        },
{
    let u = chars_of(url);
    if contains_str(&u, "sistemas.unip.br") || contains_str(&u, "unip.br/ava") {
        return Extractor::Unip;
    }
    match vimeo_id_from_url(url) {
        Some(id) => Extractor::Vimeo(id),
        None => Extractor::Unknown,
    }
}

// ---------------------------------------------------------------------------
// Vimeo
// ---------------------------------------------------------------------------

/// Pattern of the start of the player's inline configuration object.
pub open spec fn inline_config_pattern() -> Seq<char> {
    "(?:window\\.playerConfig|var\\s+config)\\s*=\\s*\\{"@
}

/// Scans from byte `i` for the `}` that closes the object, tracking the
/// nesting `depth` and whether the scan is inside a JSON string (`in_str`)
/// right after a backslash (`esc`).
pub open spec fn closing_brace(b: Seq<u8>, i: int, depth: nat, in_str: bool, esc: bool) -> Option<int>
    decreases b.len() - i,
{
    if i < 0 || i >= b.len() {
        None
    } else {
        let c = b[i];
        if in_str {
            if esc {
                closing_brace(b, i + 1, depth, true, false)
            } else if c == 92 {
                closing_brace(b, i + 1, depth, true, true)
            } else if c == 34 {
                closing_brace(b, i + 1, depth, false, false)
            } else {
                closing_brace(b, i + 1, depth, true, false)
            }
        } else if c == 34 {
            closing_brace(b, i + 1, depth, true, esc)
        } else if c == 123 {
            closing_brace(b, i + 1, depth + 1, false, esc)
        } else if c == 125 {
            if depth <= 1 {
                Some(i)
            } else {
                closing_brace(b, i + 1, (depth - 1) as nat, false, esc)
            }
        } else {
            closing_brace(b, i + 1, depth, false, esc)
        }
    }
}

/// `extract_inline_config(html)`: the bytes from the `{` that the pattern
/// ends on to its matching `}`, as text.
pub open spec fn inline_config(html: Seq<char>, bytes: Seq<u8>) -> Option<Seq<char>> {
    match regex_first_match_end(inline_config_pattern(), html) {
        None => None,
        Some(end) => if end == 0 {
            None
        } else {
            let start = end - 1;
            match closing_brace(bytes, start, 0, false, false) {
                None => None,
                Some(i) => if valid_utf8(bytes.subrange(start, i + 1)) {
                    Some(decode_utf8(bytes.subrange(start, i + 1)))
                } else {
                    None
                },
            }
        },
    }
}

/// `extract_inline_config(html)`.
pub fn extract_inline_config(html: &str) -> (r: Option<String>)
    ensures
        opt_view(r) == inline_config(html@, html.spec_bytes()),
{
    let p = chars_of("(?:window\\.playerConfig|var\\s+config)\\s*=\\s*\\{");
    let ps = string_of(&p);
    let end = match first_match_end(ps.as_str(), html) {
        Some(e) => e,
        None => return None,
    };
    if end == 0 {
        return None;
    }
    let start = end - 1;
    let bytes = html.as_bytes();
    let mut depth: usize = 0;
    let mut in_str = false;
    let mut esc = false;
    let mut i = start;
    while i < bytes.len()
        invariant
            start <= i <= bytes@.len(),
            bytes@ == html.spec_bytes(),
            ps@ == inline_config_pattern(),
            regex_first_match_end(ps@, html@) == Some(end as nat),
            end > 0,
            start == end - 1,
            depth <= i - start,
            closing_brace(bytes@, start as int, 0, false, false) == closing_brace(bytes@, i as int, depth as nat, in_str, esc),
        decreases bytes@.len() - i,
    {
        let c = bytes[i];
        if in_str {
            if esc {
                esc = false;
            } else if c == 92 {
                esc = true;
            } else if c == 34 {
                in_str = false;
            }
        } else {
            if c == 34 {
                in_str = true;
            } else if c == 123 {
                depth += 1;
            } else if c == 125 {
                if depth <= 1 {
                    let slice = &bytes[start..i + 1];
                    assert(slice@ == bytes@.subrange(start as int, i + 1));
                    return utf8_to_string(slice);
                }
                depth -= 1;
            }
        }
        i += 1;
    }
    None
}

/// The HLS part of a Vimeo player configuration (`request.files.hls`).
#[derive(Debug)]
pub struct VimeoHls {
    /// `default_cdn`, when it is a string.
    pub default_cdn: Option<String>,
    /// Each entry of the `cdns` object in its order: name, and `url` when it
    /// is a string.
    pub cdns: Vec<(String, Option<String>)>,
}

/// What the extractor reads of a Vimeo player configuration.
#[derive(Debug)]
pub struct VimeoConfig {
    /// `request.drm` is present and not `null`.
    pub drm: bool,
    /// `request.files.hls` with an object `cdns`, if both exist.
    pub hls: Option<VimeoHls>,
    /// `video.title`, when it is a string.
    pub title: Option<String>,
}

pub open spec fn cdns_view(v: Seq<(String, Option<String>)>) -> Seq<(Seq<char>, Option<Seq<char>>)> {
    v.map_values(|p: (String, Option<String>)| (p.0@, opt_view(p.1)))
}

/// Index of the CDN entry named `name`.
pub open spec fn cdn_index(cdns: Seq<(Seq<char>, Option<Seq<char>>)>, name: Seq<char>) -> Option<int>
    decreases cdns.len(),
{
    if cdns.len() == 0 {
        None
    } else if cdns.last().0 == name {
        match cdn_index(cdns.drop_last(), name) {
            Some(i) => Some(i),
            None => Some(cdns.len() - 1),
        }
    } else {
        cdn_index(cdns.drop_last(), name)
    }
}

/// The CDN entry used: the default one when it is listed, else the first.
pub open spec fn chosen_cdn(default_cdn: Option<Seq<char>>, cdns: Seq<(Seq<char>, Option<Seq<char>>)>) -> Option<int> {
    match default_cdn {
        Some(d) => match cdn_index(cdns, d) {
            Some(i) => Some(i),
            None => if cdns.len() > 0 { Some(0) } else { None },
        },
        None => if cdns.len() > 0 { Some(0) } else { None },
    }
}

/// Headers for a Vimeo download: the referer, when there is one.
pub open spec fn referer_headers(referer: Option<Seq<char>>) -> Seq<(Seq<char>, Seq<char>)> {
    match referer {
        Some(r) => seq![("referer"@, r)],
        None => seq![],
    }
}

/// `extract_vimeo` after the player page was fetched and its configuration
/// decoded: nothing under DRM; otherwise the chosen CDN's playlist URL.
pub open spec fn vimeo_result(drm: bool, hls: Option<(Option<Seq<char>>, Seq<(Seq<char>, Option<Seq<char>>)>)>, title: Option<Seq<char>>, referer: Option<Seq<char>>) -> Option<ExtractResultView> {
    if drm {
        None
    } else {
        match hls {
            None => None,
            Some((default_cdn, cdns)) => match chosen_cdn(default_cdn, cdns) {
                None => None,
                Some(i) => match cdns[i].1 {
                    None => None,
                    Some(url) => Some(ExtractResultView { m3u8_url: url, title, headers: referer_headers(referer) }),
                },
            },
        }
    }
}

fn cdn_index_exec(cdns: &Vec<(String, Option<String>)>, name: &String) -> (r: Option<usize>)
    ensures
        match r {
            Some(i) => cdn_index(cdns_view(cdns@), name@) == Some(i as int) && i < cdns@.len(),
            None => cdn_index(cdns_view(cdns@), name@) is None,
        },
{
    let ghost v = cdns_view(cdns@);
    let mut i: usize = 0;
    while i < cdns.len()
        invariant
            i <= cdns@.len(),
            v == cdns_view(cdns@),
            forall|k: int| 0 <= k < i ==> v[k].0 != name@,
            cdn_index(v.take(i as int), name@) is None,
        decreases cdns@.len() - i,
    {
        if cdns[i].0 == *name {
            proof {
                lemma_cdn_index_first(v, name@, i as int);
            }
            return Some(i);
        }
        proof {
            assert(v.take(i + 1).drop_last() == v.take(i as int));
        }
        i += 1;
    }
    assert(v.take(cdns@.len() as int) == v);
    None
}

proof fn lemma_cdn_index_first(v: Seq<(Seq<char>, Option<Seq<char>>)>, name: Seq<char>, i: int)
    requires
        0 <= i < v.len(),
        v[i].0 == name,
        forall|k: int| 0 <= k < i ==> v[k].0 != name,
    ensures
        cdn_index(v, name) == Some(i),
    decreases v.len(),
{
    if v.len() - 1 > i {
        lemma_cdn_index_first(v.drop_last(), name, i);
    } else {
        lemma_cdn_none(v.drop_last(), name);
    }
}

proof fn lemma_cdn_none(v: Seq<(Seq<char>, Option<Seq<char>>)>, name: Seq<char>)
    requires
        forall|k: int| 0 <= k < v.len() ==> v[k].0 != name,
    ensures
        cdn_index(v, name) is None,
    decreases v.len(),
{
    if v.len() > 0 {
        lemma_cdn_none(v.drop_last(), name);
    }
}

/// `extract_vimeo`'s decisions over the decoded configuration.
pub fn vimeo_stream(config: &VimeoConfig, referer: Option<&str>) -> (r: Option<ExtractResult>)
    ensures
        opt_extract_view(r) == vimeo_result(
            config.drm,
            match &config.hls {
                Some(h) => Some((opt_view(h.default_cdn), cdns_view(h.cdns@))),
                None => None,
            },
            opt_view(config.title),
            match referer { Some(x) => Some(x@), None => None },
        ),
{
    if config.drm {
        return None;
    }
    let hls = match &config.hls {
        Some(h) => h,
        None => return None,
    };
    let idx: Option<usize> = match &hls.default_cdn {
        Some(d) => match cdn_index_exec(&hls.cdns, d) {
            Some(i) => Some(i),
            None => if hls.cdns.len() > 0 { Some(0) } else { None },
        },
        None => if hls.cdns.len() > 0 { Some(0) } else { None },
    };
    let i = match idx {
        Some(i) => i,
        None => return None,
    };
    assert(cdns_view(hls.cdns@)[i as int] == (hls.cdns@[i as int].0@, opt_view(hls.cdns@[i as int].1)));
    let url = match &hls.cdns[i].1 {
        Some(u) => u.clone(),
        None => return None,
    };
    let title = match &config.title {
        Some(t) => Some(t.clone()),
        None => None,
    };
    let mut headers: Vec<(String, String)> = Vec::new();
    if let Some(r) = referer {
        let k = chars_of("referer");
        headers.push((string_of(&k), str_to_string(r)));
    }
    assert(pairs_view(headers@) =~= referer_headers(match referer { Some(x) => Some(x@), None => None }));
    Some(ExtractResult { m3u8_url: url, title, headers })
}

/// `https://player.vimeo.com/video/{id}`: the player page that is fetched.
pub fn vimeo_player_url(video_id: &str) -> (r: String)
    ensures
        r@ == "https://player.vimeo.com/video/"@ + video_id@,
{
    let mut v: Vec<char> = Vec::new();
    push_str(&mut v, "https://player.vimeo.com/video/");
    push_str(&mut v, video_id);
    string_of(&v)
}

// ---------------------------------------------------------------------------
// UNIP
// ---------------------------------------------------------------------------

/// The value of the last query pair named `id` (later pairs overwrite, as
/// when collected into a map).
pub open spec fn last_id(pairs: Seq<(Seq<char>, Seq<char>)>) -> Option<Seq<char>>
    decreases pairs.len(),
{
    if pairs.len() == 0 {
        None
    } else if pairs.last().0 == "id"@ {
        Some(pairs.last().1)
    } else {
        last_id(pairs.drop_last())
    }
}

/// The media API URL for a UNIP page URL.
pub open spec fn unip_api(url: Seq<char>) -> Option<Seq<char>> {
    match url_query_pairs(url) {
        None => None,
        Some(pairs) => match last_id(pairs) {
            None => None,
            Some(id) => Some("https://tvweb3.unip.br/api/transmissao/"@ + id),
        },
    }
}

/// `extract_unip`'s first step: the API URL from the page's `id` parameter.
pub fn unip_api_url(url: &str) -> (r: Option<String>)
    ensures
        opt_view(r) == unip_api(url@),
{
    let pairs = match query_pairs(url) {
        Some(p) => p,
        None => return None,
    };
    let ghost pv = pairs@.map_values(|p: (String, String)| (p.0@, p.1@));
    let idk = chars_of("id");
    let ids = string_of(&idk);
    let mut k = pairs.len();
    assert(pv.take(k as int) == pv);
    while k > 0 && pairs[k - 1].0 != ids
        invariant
            k <= pairs@.len(),
            ids@ == "id"@,
            pv == pairs@.map_values(|p: (String, String)| (p.0@, p.1@)),
            last_id(pv) == last_id(pv.take(k as int)),
        decreases k,
    {
        proof {
            assert(pv.take(k as int).drop_last() == pv.take(k - 1));
            assert(pv.take(k as int).last() == pv[k - 1]);
        }
        k -= 1;
    }
    if k == 0 {
        return None;
    }
    proof {
        assert(pv.take(k as int).last() == pv[k - 1]);
    }
    let mut v: Vec<char> = Vec::new();
    push_str(&mut v, "https://tvweb3.unip.br/api/transmissao/");
    push_str(&mut v, pairs[k - 1].1.as_str());
    Some(string_of(&v))
}

/// Patterns tried, in order, for a stream URL in a JSON text.
pub open spec fn stream_json_patterns() -> Seq<Seq<char>> {
    seq![
        "\"(https?://[^\"]*\\.m3u8[^\"]*?)\""@,
        "\"(https?://[^\"]*manifest[^\"]*?)\""@,
        "\"(https?://[^\"]*\\.ism/manifest[^\"]*?)\""@,
        "\"(https?://[^\"]*streaming[^\"]*?)\""@,
        "\"(https?://[^\"]*\\.mpd[^\"]*?)\""@,
        "\"(https?://[^\"]*media\\.azure[^\"]*?)\""@,
        "\"(https?://[^\"]*azureedge[^\"]*?)\""@,
        "\"(https?://[^\"]*blob\\.core[^\"]*?)\""@,
    ]
}

/// Pattern for any long quoted URL.
pub open spec fn long_url_pattern() -> Seq<char> {
    "\"(https?://[^\"]{20,}?)\""@
}

/// A Smooth Streaming URL without a format gets the HLS one appended.
pub open spec fn with_hls_format(u: Seq<char>) -> Seq<char> {
    if contains(u, ".ism"@) && !contains(u, "format="@) {
        u + "(format=m3u8-cmaf)"@
    } else {
        u
    }
}

/// A URL that looks like media.
pub open spec fn media_like(u: Seq<char>) -> bool {
    contains(u, "video"@) || contains(u, "media"@) || contains(u, "stream"@) || contains(u, "azure"@)
}

/// First of `urls` that looks like media, from index `i`.
pub open spec fn first_media_like(urls: Seq<Seq<char>>, i: int) -> Option<Seq<char>>
    decreases urls.len() - i,
{
    if i < 0 || i >= urls.len() {
        None
    } else if media_like(urls[i]) {
        Some(urls[i])
    } else {
        first_media_like(urls, i + 1)
    }
}

/// `find_stream_url_in_json(json)` from pattern `k` on.
pub open spec fn stream_url_from(json: Seq<char>, k: int) -> Option<Seq<char>>
    decreases 8 - k,
{
    if k < 0 || k >= 8 {
        first_media_like(regex_group1_all(long_url_pattern(), json), 0)
    } else {
        match regex_group1(stream_json_patterns()[k], json) {
            Some(u) => Some(with_hls_format(u)),
            None => stream_url_from(json, k + 1),
        }
    }
}

/// `find_stream_url_in_json(json)`: the first pattern that matches gives the
/// URL; else the first long quoted URL that looks like media.
pub open spec fn stream_url_in_json(json: Seq<char>) -> Option<Seq<char>> {
    stream_url_from(json, 0)
}

fn stream_pattern(k: usize) -> (r: String)
    requires
        k < 8,
    ensures
        r@ == stream_json_patterns()[k as int],
{
    let p = if k == 0 {
        "\"(https?://[^\"]*\\.m3u8[^\"]*?)\""
    } else if k == 1 {
        "\"(https?://[^\"]*manifest[^\"]*?)\""
    } else if k == 2 {
        "\"(https?://[^\"]*\\.ism/manifest[^\"]*?)\""
    } else if k == 3 {
        "\"(https?://[^\"]*streaming[^\"]*?)\""
    } else if k == 4 {
        "\"(https?://[^\"]*\\.mpd[^\"]*?)\""
    } else if k == 5 {
        "\"(https?://[^\"]*media\\.azure[^\"]*?)\""
    } else if k == 6 {
        "\"(https?://[^\"]*azureedge[^\"]*?)\""
    } else {
        "\"(https?://[^\"]*blob\\.core[^\"]*?)\""
    };
    str_to_string(p)
}

/// `find_stream_url_in_json(json)`.
pub fn find_stream_url_in_json(json: &str) -> (r: Option<String>)
    ensures
        opt_view(r) == stream_url_in_json(json@),
{
    let mut k: usize = 0;
    while k < 8
        invariant
            k <= 8,
            stream_url_in_json(json@) == stream_url_from(json@, k as int),
        decreases 8 - k,
    {
        let p = stream_pattern(k);
        if let Some(u) = first_group1(p.as_str(), json) {
            let uv = chars_of(u.as_str());
            if contains_str(&uv, ".ism") && !contains_str(&uv, "format=") {
                let mut w = uv;
                push_str(&mut w, "(format=m3u8-cmaf)");
                return Some(string_of(&w));
            }
            return Some(u);
        }
        k += 1;
    }
    let lp = chars_of("\"(https?://[^\"]{20,}?)\"");
    let lps = string_of(&lp);
    let urls = all_group1(lps.as_str(), json);
    let ghost uv = urls@.map_values(|s: String| s@);
    let mut i: usize = 0;
    while i < urls.len()
        invariant
            i <= urls@.len(),
            uv == urls@.map_values(|s: String| s@),
            stream_url_in_json(json@) == first_media_like(uv, i as int),
        decreases urls@.len() - i,
    {
        let u = chars_of(urls[i].as_str());
        assert(uv[i as int] == urls@[i as int]@);
        if contains_str(&u, "video") || contains_str(&u, "media") || contains_str(&u, "stream") || contains_str(&u, "azure") {
            return Some(urls[i].clone());
        }
        i += 1;
    }
    None
}

/// Pattern of `"field": "value"` for `extract_json_field`.
pub open spec fn json_field_pattern(field: Seq<char>) -> Seq<char> {
    "\""@ + field + "\"\\s*:\\s*\"([^\"]+?)\""@
}

/// `extract_json_field(json, field)`: the first string value of `field`.
pub fn extract_json_field(json: &str, field: &str) -> (r: Option<String>)
    ensures
        opt_view(r) == regex_group1(json_field_pattern(field@), json@),
{
    let mut p: Vec<char> = Vec::new();
    push_str(&mut p, "\"");
    push_str(&mut p, field);
    push_str(&mut p, "\"\\s*:\\s*\"([^\"]+?)\"");
    let ps = string_of(&p);
    first_group1(ps.as_str(), json)
}

/// What the UNIP extractor reads of the decoded API answer.
#[derive(Debug)]
pub struct UnipAnswer {
    /// `titulo`, `nome`, `title`: `None` when the key is absent, `Some(None)`
    /// when its value is not a string.
    pub titulo: Option<Option<String>>,
    pub nome: Option<Option<String>>,
    pub title: Option<Option<String>>,
    /// `midias`, when it is an array: each item's `local` when it is a string.
    pub midias: Option<Vec<Option<String>>>,
}

pub open spec fn opt_opt_view(o: Option<Option<String>>) -> Option<Option<Seq<char>>> {
    match o {
        Some(i) => Some(opt_view(i)),
        None => None,
    }
}

/// The title: the first of `titulo`, `nome`, `title` that is present, if it
/// is a string.
pub open spec fn unip_title(titulo: Option<Option<Seq<char>>>, nome: Option<Option<Seq<char>>>, title: Option<Option<Seq<char>>>) -> Option<Seq<char>> {
    match titulo {
        Some(v) => v,
        None => match nome {
            Some(v) => v,
            None => match title {
                Some(v) => v,
                None => None,
            },
        },
    }
}

/// First `local` from index `i` that mentions `m3u8`.
pub open spec fn first_m3u8_local(locals: Seq<Option<Seq<char>>>, i: int) -> Option<Seq<char>>
    decreases locals.len() - i,
{
    if i < 0 || i >= locals.len() {
        None
    } else if locals[i] matches Some(u) && (contains(u, ".m3u8"@) || contains(u, "m3u8"@)) {
        locals[i]
    } else {
        first_m3u8_local(locals, i + 1)
    }
}

/// First non-empty `local` from index `i`.
pub open spec fn first_nonempty_local(locals: Seq<Option<Seq<char>>>, i: int) -> Option<Seq<char>>
    decreases locals.len() - i,
{
    if i < 0 || i >= locals.len() {
        None
    } else if locals[i] matches Some(u) && u.len() > 0 {
        locals[i]
    } else {
        first_nonempty_local(locals, i + 1)
    }
}

pub open spec fn plain_result(url: Seq<char>, title: Option<Seq<char>>) -> ExtractResultView {
    ExtractResultView { m3u8_url: url, title, headers: seq![] }
}

/// `extract_unip` after the API answered with `body`; `answer` is its
/// decoding as JSON (`None` when it is not JSON).
pub open spec fn unip_result(body: Seq<char>, answer: Option<(Option<Option<Seq<char>>>, Option<Option<Seq<char>>>, Option<Option<Seq<char>>>, Option<Seq<Option<Seq<char>>>>)>) -> Option<ExtractResultView> {
    match answer {
        Some((titulo, nome, title, midias)) => {
            let t = unip_title(titulo, nome, title);
            let from_midias = match midias {
                Some(ls) => match first_m3u8_local(ls, 0) {
                    Some(u) => Some(u),
                    None => first_nonempty_local(ls, 0),
                },
                None => None,
            };
            match from_midias {
                Some(u) => Some(plain_result(u, t)),
                None => match stream_url_in_json(body) {
                    Some(u) => Some(plain_result(u, t)),
                    None => None,
                },
            }
        },
        None => match stream_url_in_json(body) {
            Some(u) => Some(plain_result(
                u,
                match regex_group1(json_field_pattern("titulo"@), body) {
                    Some(t) => Some(t),
                    None => regex_group1(json_field_pattern("nome"@), body),
                },
            )),
            None => None,
        },
    }
}

fn copy_opt_opt(o: &Option<Option<String>>) -> (r: Option<String>)
    ensures
        opt_view(r) == match opt_opt_view(*o) {
            Some(v) => v,
            None => None,
        },
{
    match o {
        Some(Some(s)) => Some(s.clone()),
        _ => None,
    }
}

pub open spec fn locals_view(v: Seq<Option<String>>) -> Seq<Option<Seq<char>>> {
    v.map_values(|o: Option<String>| opt_view(o))
}

fn pick_local(ls: &Vec<Option<String>>) -> (r: Option<String>)
    ensures
        opt_view(r) == match first_m3u8_local(locals_view(ls@), 0) {
            Some(u) => Some(u),
            None => first_nonempty_local(locals_view(ls@), 0),
        },
{
    let ghost lv = locals_view(ls@);
    let mut i: usize = 0;
    while i < ls.len()
        invariant
            i <= ls@.len(),
            lv == locals_view(ls@),
            first_m3u8_local(lv, 0) == first_m3u8_local(lv, i as int),
        decreases ls@.len() - i,
    {
        assert(lv[i as int] == opt_view(ls@[i as int]));
        if let Some(u) = &ls[i] {
            let uv = chars_of(u.as_str());
            if contains_str(&uv, ".m3u8") || contains_str(&uv, "m3u8") {
                return Some(u.clone());
            }
        }
        i += 1;
    }
    let mut j: usize = 0;
    while j < ls.len()
        invariant
            j <= ls@.len(),
            lv == locals_view(ls@),
            first_m3u8_local(lv, 0) is None,
            first_nonempty_local(lv, 0) == first_nonempty_local(lv, j as int),
        decreases ls@.len() - j,
    {
        assert(lv[j as int] == opt_view(ls@[j as int]));
        if let Some(u) = &ls[j] {
            let uv = chars_of(u.as_str());
            if uv.len() > 0 {
                return Some(u.clone());
            }
        }
        j += 1;
    }
    None
}

/// `extract_unip`'s decisions over the API answer.
pub fn unip_stream(body: &str, answer: Option<&UnipAnswer>) -> (r: Option<ExtractResult>)
    ensures
        opt_extract_view(r) == unip_result(
            body@,
            match answer {
                Some(a) => Some((
                    opt_opt_view(a.titulo),
                    opt_opt_view(a.nome),
                    opt_opt_view(a.title),
                    match &a.midias {
                        Some(m) => Some(locals_view(m@)),
                        None => None,
                    },
                )),
                None => None,
            },
        ),
{
    match answer {
        Some(a) => {
            let t = match &a.titulo {
                Some(_) => copy_opt_opt(&a.titulo),
                None => match &a.nome {
                    Some(_) => copy_opt_opt(&a.nome),
                    None => copy_opt_opt(&a.title),
                },
            };
            let from_midias = match &a.midias {
                Some(ls) => pick_local(ls),
                None => None,
            };
            match from_midias {
                Some(u) => {
                    let r = ExtractResult { m3u8_url: u, title: t, headers: Vec::new() };
                    assert(pairs_view(r.headers@) =~= Seq::<(Seq<char>, Seq<char>)>::empty());
                    Some(r)
                },
                None => match find_stream_url_in_json(body) {
                    Some(u) => {
                        let r = ExtractResult { m3u8_url: u, title: t, headers: Vec::new() };
                        assert(pairs_view(r.headers@) =~= Seq::<(Seq<char>, Seq<char>)>::empty());
                        Some(r)
                    },
                    None => None,
                },
            }
        },
        None => match find_stream_url_in_json(body) {
            Some(u) => {
                let t = match extract_json_field(body, "titulo") {
                    Some(t) => Some(t),
                    None => extract_json_field(body, "nome"),
                };
                proof {
                    reveal_strlit("titulo");
                    reveal_strlit("nome");
                }
                let r = ExtractResult { m3u8_url: u, title: t, headers: Vec::new() };
                assert(pairs_view(r.headers@) =~= Seq::<(Seq<char>, Seq<char>)>::empty());
                Some(r)
            },
            None => None,
        },
    }
}

} // verus!
