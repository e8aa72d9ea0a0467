//! Calls into the `url` crate: parsing and joining URLs (WHATWG rules).
use vstd::prelude::*;
use crate::types::opt_view;

verus! {

/// What `Url::parse(base)?.join(relative)` serialises to, if both succeed.
pub uninterp spec fn joined_url(base: Seq<char>, relative: Seq<char>) -> Option<Seq<char>>;

/// `url::Url::parse(base)` and then `Url::join(relative)`, serialised with
/// `to_string`. The contract only names the result: the URL standard that
/// decides it is not restated here.
#[verifier::external_body]
pub(crate) fn join_url(base: &str, relative: &str) -> (r: Option<String>)
    ensures
        opt_view(r) == joined_url(base@, relative@),
{
    match url::Url::parse(base) {
        Ok(b) => match b.join(relative) {
            Ok(u) => Some(u.to_string()),
            Err(_) => None,
        },
        Err(_) => None,
    }
}

/// What `Url::parse(url)?.host_str()` gives, if the URL parses and has a host.
pub uninterp spec fn url_host(url: Seq<char>) -> Option<Seq<char>>;

/// `url::Url::parse(url)` and then `Url::host_str`.
#[verifier::external_body]
pub(crate) fn host_str(url: &str) -> (r: Option<String>)
    ensures
        opt_view(r) == url_host(url@),
{
    match url::Url::parse(url) {
        Ok(u) => match u.host_str() {
            Some(h) => Some(h.to_string()),
            None => None,
        },
        Err(_) => None,
    }
}

/// What `Url::parse(url)?.scheme()` gives, if the URL parses.
pub uninterp spec fn url_scheme(url: Seq<char>) -> Option<Seq<char>>;

/// `url::Url::parse(url)` and then `Url::scheme`.
#[verifier::external_body]
pub(crate) fn scheme_str(url: &str) -> (r: Option<String>)
    ensures
        opt_view(r) == url_scheme(url@),
{
    match url::Url::parse(url) {
        Ok(u) => Some(u.scheme().to_string()),
        Err(_) => None,
    }
}

/// What `Url::parse(url)?.path_segments()?.next()` gives.
pub uninterp spec fn url_first_segment(url: Seq<char>) -> Option<Seq<char>>;

/// `url::Url::parse(url)`, then the first item of `Url::path_segments`.
#[verifier::external_body]
pub(crate) fn first_path_segment(url: &str) -> (r: Option<String>)
    ensures
        opt_view(r) == url_first_segment(url@),
{
    match url::Url::parse(url) {
        Ok(u) => match u.path_segments() {
            Some(mut segs) => match segs.next() {
                Some(s) => Some(s.to_string()),
                None => None,
            },
            None => None,
        },
        Err(_) => None,
    }
}

/// The decoded query pairs of `url`, in order (`Url::query_pairs`).
pub uninterp spec fn url_query_pairs(url: Seq<char>) -> Option<Seq<(Seq<char>, Seq<char>)>>;

/// `url::Url::parse(url)` and then `Url::query_pairs`, collected in order.
#[verifier::external_body]
pub(crate) fn query_pairs(url: &str) -> (r: Option<Vec<(String, String)>>)
    ensures
        match r {
            Some(v) => url_query_pairs(url@) == Some(v@.map_values(|p: (String, String)| (p.0@, p.1@))),
            None => url_query_pairs(url@) is None,
        },
{
    match url::Url::parse(url) {
        Ok(u) => Some(u.query_pairs().map(|(k, v)| (k.to_string(), v.to_string())).collect()),
        Err(_) => None,
    }
}

} // verus!
