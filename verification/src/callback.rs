//! Requests of the local callback server: the in-page script reports the
//! streams it sees as `GET /detected?url=…&source=…`. Listening and answering
//! belong to the application.
use vstd::prelude::*;
use crate::m3u8::eq_chars;
use crate::sniffer::{now_millis, DetectedStream};
use crate::text::{
    before_char, chars_of, contains, contains_str, find_char, find_char_from, find_from, lemma_find_char_lt,
    lemma_find_shift, slice_chars, str_to_string, string_of, suffix,
};
use crate::types::opt_view;
use vstd::utf8::{decode_utf8, encode_utf8, valid_utf8};

verus! {

/// The query of a request line: what follows the first `?`, up to the next
/// space (or the end of the line).
pub open spec fn query_of(line: Seq<char>) -> Option<Seq<char>> {
    match find_char(line, '?') {
        Some(q) => {
            let rest = line.skip(q);
            let e = match find_char(rest, ' ') {
                Some(k) => k,
                None => rest.len() as int,
            };
            Some(line.subrange(q + 1, q + e))
        },
        None => None,
    }
}

/// The value of the first `name=value` pair of a query (pairs split on `&`,
/// each split on its first `=`; a pair without `=` has no value).
pub open spec fn param_in(query: Seq<char>, name: Seq<char>) -> Option<Seq<char>>
    decreases query.len(),
{
    let pair = before_char(query, '&');
    let hit = match find_char(pair, '=') {
        Some(k) => if pair.take(k) == name {
            Some(pair.skip(k + 1))
        } else {
            None
        },
        None => None,
    };
    if hit is Some {
        hit
    } else {
        match find_char(query, '&') {
            Some(a) => if 0 <= a < query.len() {
                param_in(query.skip(a + 1), name)
            } else {
                None
            },
            None => None,
        }
    }
}

/// A query parameter of a request line, undecoded.
pub open spec fn line_param(line: Seq<char>, name: Seq<char>) -> Option<Seq<char>> {
    match query_of(line) {
        Some(q) => param_in(q, name),
        None => None,
    }
}

fn param_value(q: &Vec<char>, name: &Vec<char>) -> (r: Option<Vec<char>>)
    ensures
        match r {
            Some(v) => param_in(q@, name@) == Some(v@),
            None => param_in(q@, name@) is None,
        },
{
    let mut pos: usize = 0;
    assert(q@.skip(0) == q@);
    loop
        invariant
            pos <= q@.len(),
            param_in(q@, name@) == param_in(q@.skip(pos as int), name@),
        decreases q@.len() - pos,
    {
        let ghost t = q@.skip(pos as int);
        let amp = find_char_from(q, '&', pos);
        proof {
            lemma_find_shift(q@, seq!['&'], pos as int, 0);
            lemma_find_char_lt(t, '&');
        }
        let end = match amp {
            Some(a) => a,
            None => q.len(),
        };
        let pair = slice_chars(q, pos, end);
        proof {
            if amp is Some {
                assert(pair@ =~= t.take(end - pos));
            } else {
                assert(pair@ =~= t);
            }
            assert(pair@ == before_char(t, '&'));
        }
        match find_char_from(&pair, '=', 0) {
            Some(k) => {
                proof {
                    lemma_find_char_lt(pair@, '=');
                }
                let key = slice_chars(&pair, 0, k);
                if eq_chars(&key, name) {
                    let v = suffix(&pair, k + 1);
                    assert(key@ == pair@.take(k as int));
                    return Some(v);
                }
                assert(key@ == pair@.take(k as int));
            },
            None => {},
        }
        match amp {
            Some(a) => {
                assert(find_from(t, seq!['&'], 0) == Some(a - pos));
                assert(a < q.len());
                assert(t.skip(a - pos + 1) =~= q@.skip(a + 1));
                pos = a + 1;
            },
            None => {
                return None;
            },
        }
    }
}

/// `extract_param(line, name)`: the raw value of a query parameter of an
/// HTTP request line.
pub fn extract_param(line: &str, name: &str) -> (r: Option<String>)
    ensures
        opt_view(r) == line_param(line@, name@),
{
    let v = chars_of(line);
    let nv = chars_of(name);
    let q = match find_char_from(&v, '?', 0) {
        Some(q) => q,
        None => return None,
    };
    proof {
        lemma_find_char_lt(v@, '?');
    }
    let ghost rest = v@.skip(q as int);
    proof {
        lemma_find_shift(v@, seq![' '], q as int, 0);
        lemma_find_char_lt(rest, ' ');
    }
    let sp = find_char_from(&v, ' ', q);
    proof {
        if let Some(k) = sp {
            assert(find_from(rest, seq![' '], 0) == Some(k - q));
        }
    }
    let e = match sp {
        Some(k) => k - q,
        None => v.len() - q,
    };
    proof {
        assert(e >= 1) by {
            if find_char(rest, ' ') is Some {
                assert(rest[0] == '?');
            }
        }
    }
    let query = slice_chars(&v, q + 1, q + e);
    match param_value(&query, &nv) {
        Some(val) => Some(string_of(&val)),
        None => None,
    }
}

/// Value of an ASCII hexadecimal digit.
pub open spec fn hex_digit_value(b: u8) -> Option<u8> {
    if 48 <= b <= 57 {
        Some((b - 48) as u8)
    } else if 65 <= b <= 70 {
        Some((b - 55) as u8)
    } else if 97 <= b <= 102 {
        Some((b - 87) as u8)
    } else {
        None
    }
}

/// Percent decoding of bytes: each `%` followed by two hexadecimal digits
/// becomes the byte they spell; every other byte (`+` too) is kept.
pub open spec fn percent_decoded(b: Seq<u8>) -> Seq<u8>
    decreases b.len(),
{
    if b.len() == 0 {
        seq![]
    } else if b[0] == 37 && b.len() >= 3 && hex_digit_value(b[1]) is Some && hex_digit_value(
        b[2],
    ) is Some {
        seq![(hex_digit_value(b[1])->0 * 16 + hex_digit_value(b[2])->0) as u8] + percent_decoded(b.skip(3))
    } else {
        seq![b[0]] + percent_decoded(b.skip(1))
    }
}

/// The text whose UTF-8 bytes are the percent-decoded UTF-8 bytes of `text`;
/// `None` when those bytes are not UTF-8.
pub open spec fn url_decoded(text: Seq<char>) -> Option<Seq<char>> {
    let d = percent_decoded(encode_utf8(text));
    if valid_utf8(d) {
        Some(decode_utf8(d))
    } else {
        None
    }
}

/// `urlencoding::decode(text)`: percent escapes decoded, the bytes read as
/// UTF-8, `None` for the crate's error when they are not UTF-8 (see
/// [`url_decoded`]). A text without `%` comes back as it is.
#[verifier::external_body]
fn percent_decode(text: &str) -> (r: Option<String>)
    ensures
        opt_view(r) == url_decoded(text@),
        !contains(text@, "%"@) ==> opt_view(r) == Some(text@),
{
    match urlencoding::decode(text) {
        Ok(s) => Some(s.into_owned()),
        Err(_) => None,
    }
}

/// A reported URL, decoded; kept as it came when decoding fails.
pub open spec fn decoded_or_raw(raw: Seq<char>) -> Seq<char> {
    match url_decoded(raw) {
        Some(d) => d,
        None => raw,
    }
}

/// The stream a callback request reports: the decoded `url` parameter and
/// the `source` parameter (`"callback"` when absent), for a request line
/// that mentions `/detected`.
pub open spec fn reported_stream(line: Seq<char>) -> Option<(Seq<char>, Seq<char>)> {
    if !contains(line, "/detected"@) {
        None
    } else {
        match line_param(line, "url"@) {
            Some(u) => Some(
                (
                    decoded_or_raw(u),
                    match line_param(line, "source"@) {
                        Some(s) => s,
                        None => "callback"@,
                    },
                ),
            ),
            None => None,
        }
    }
}

/// Reads the first line of a callback request: the decoded stream URL and
/// its source, when the request reports one.
pub fn callback_report(first_line: &str) -> (r: Option<(String, String)>)
    ensures
        match r {
            Some((u, s)) => reported_stream(first_line@) == Some((u@, s@)),
            None => reported_stream(first_line@) is None,
        },
{
    let v = chars_of(first_line);
    if !contains_str(&v, "/detected") {
        return None;
    }
    let raw = match extract_param(first_line, "url") {
        Some(u) => u,
        None => return None,
    };
    let source = match extract_param(first_line, "source") {
        Some(s) => s,
        None => str_to_string("callback"),
    };
    let url = match percent_decode(raw.as_str()) {
        Some(d) => d,
        None => raw,
    };
    Some((url, source))
}

/// The record of a stream reported through the callback server, seen at
/// `timestamp` (milliseconds since the Unix epoch).
pub fn callback_detected_stream(first_line: &str, timestamp: u64) -> (r: Option<DetectedStream>)
    ensures
        match r {
            Some(d) => reported_stream(first_line@) == Some((d@.url, d@.source)) && d@.content_type is None
                && d@.headers.len() == 0 && d@.timestamp == timestamp,
            None => reported_stream(first_line@) is None,
        },
{
    match callback_report(first_line) {
        Some((url, source)) => {
            let d = DetectedStream { url, content_type: None, source, headers: Vec::new(), timestamp };
            Some(d)
        },
        None => None,
    }
}

/// [`callback_detected_stream`] stamped with the current time of the system
/// clock; nothing is claimed of the time itself.
pub fn callback_detected_stream_now(first_line: &str) -> (r: Option<DetectedStream>)
    ensures
        match r {
            Some(d) => reported_stream(first_line@) == Some((d@.url, d@.source)) && d@.content_type is None
                && d@.headers.len() == 0,
            None => reported_stream(first_line@) is None,
        },
{
    let now = now_millis();
    callback_detected_stream(first_line, now)
}

} // verus!
