//! Calls into `regex_lite`: matching and capturing with the patterns the
//! extractors use.
use vstd::prelude::*;
use vstd::string::StringSliceAdditionalSpecFns;
use crate::types::opt_view;

verus! {

/// Whether `regex_lite::Regex::new(pattern)` compiles and matches somewhere in `text`.
pub uninterp spec fn regex_is_match(pattern: Seq<char>, text: Seq<char>) -> bool;

/// Group 1 of the first match of `pattern` in `text`, if the pattern compiles,
/// matches, and the group took part in that match.
pub uninterp spec fn regex_group1(pattern: Seq<char>, text: Seq<char>) -> Option<Seq<char>>;

/// Group 1 of every successive non-overlapping match of `pattern` in `text`,
/// `None` where the group took no part (empty when the pattern does not compile).
pub uninterp spec fn regex_captures_group1(pattern: Seq<char>, text: Seq<char>) -> Seq<Option<Seq<char>>>;

/// The present values of `s`, in order.
pub open spec fn present(s: Seq<Option<Seq<char>>>) -> Seq<Seq<char>>
    decreases s.len(),
{
    if s.len() == 0 {
        seq![]
    } else {
        match s.last() {
            Some(x) => present(s.drop_last()).push(x),
            None => present(s.drop_last()),
        }
    }
}

/// Group 1 of every successive non-overlapping match of `pattern` in `text`
/// in which the group took part.
pub open spec fn regex_group1_all(pattern: Seq<char>, text: Seq<char>) -> Seq<Seq<char>> {
    present(regex_captures_group1(pattern, text))
}

/// Byte offset in `text` where the first match of `pattern` ends.
pub uninterp spec fn regex_first_match_end(pattern: Seq<char>, text: Seq<char>) -> Option<nat>;

/// `Regex::new(pattern)` then `Regex::is_match(text)`; `false` when the
/// pattern does not compile.
#[verifier::external_body]
pub(crate) fn is_match(pattern: &str, text: &str) -> (r: bool)
    ensures
        r == regex_is_match(pattern@, text@),
{
    match regex_lite::Regex::new(pattern) {
        Ok(re) => re.is_match(text),
        Err(_) => false,
    }
}

/// `Regex::new(pattern)` then `Regex::captures(text)` and `get(1)`.
#[verifier::external_body]
pub(crate) fn first_group1(pattern: &str, text: &str) -> (r: Option<String>)
    ensures
        match r {
            Some(s) => regex_group1(pattern@, text@) == Some(s@),
            None => regex_group1(pattern@, text@) is None,
        },
{
    match regex_lite::Regex::new(pattern) {
        Ok(re) => match re.captures(text) {
            Some(cap) => match cap.get(1) {
                Some(m) => Some(m.as_str().to_string()),
                None => None,
            },
            None => None,
        },
        Err(_) => None,
    }
}

/// `Regex::new(pattern)` then `Regex::captures_iter(text)` and `get(1)` of
/// each capture; empty when the pattern does not compile.
#[verifier::external_body]
fn captures_group1(pattern: &str, text: &str) -> (r: Vec<Option<String>>)
    ensures
        r@.map_values(|o: Option<String>| opt_view(o)) == regex_captures_group1(pattern@, text@),
{
    let mut out = Vec::new();
    if let Ok(re) = regex_lite::Regex::new(pattern) {
        for cap in re.captures_iter(text) {
            out.push(match cap.get(1) {
                Some(m) => Some(m.as_str().to_string()),
                None => None,
            });
        }
    }
    out
}

/// Group 1 of every match of `pattern` in `text` where the group took part.
pub(crate) fn all_group1(pattern: &str, text: &str) -> (r: Vec<String>)
    ensures
        r@.map_values(|s: String| s@) == regex_group1_all(pattern@, text@),
{
    let caps = captures_group1(pattern, text);
    let ghost cv = caps@.map_values(|o: Option<String>| opt_view(o));
    let mut out: Vec<String> = Vec::new();
    let mut i: usize = 0;
    while i < caps.len()
        invariant
            i <= caps@.len(),
            cv == caps@.map_values(|o: Option<String>| opt_view(o)),
            out@.map_values(|s: String| s@) == present(cv.take(i as int)),
        decreases caps@.len() - i,
    {
        proof {
            assert(cv.take(i + 1).drop_last() == cv.take(i as int));
            assert(cv.take(i + 1).last() == opt_view(caps@[i as int]));
        }
        match &caps[i] {
            Some(s) => {
                out.push(s.clone());
            },
            None => {},
        }
        i += 1;
    }
    assert(cv.take(caps@.len() as int) == cv);
    out
}

/// `Regex::new(pattern)` then `Regex::find(text)` and `Match::end`. Claimed:
/// the end is a byte offset within `text`.
#[verifier::external_body]
pub(crate) fn first_match_end(pattern: &str, text: &str) -> (r: Option<usize>)
    ensures
        match r {
            Some(e) => regex_first_match_end(pattern@, text@) == Some(e as nat),
            None => regex_first_match_end(pattern@, text@) is None,
        },
        r matches Some(e) ==> e <= text.spec_bytes().len(),
{
    match regex_lite::Regex::new(pattern) {
        Ok(re) => match re.find(text) {
            Some(m) => Some(m.end()),
            None => None,
        },
        Err(_) => None,
    }
}

} // verus!
