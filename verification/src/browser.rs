//! The embedded browser window: whether it is open, and what the injected
//! script hands back through the page title.
use vstd::prelude::*;
use crate::text::{chars_of, starts_with, starts_with_str, string_of, suffix};

verus! {

/// Whether the browser window is open.
#[derive(Debug)]
pub struct BrowserState {
    pub is_open: bool,
}

impl Default for BrowserState {
    fn default() -> (r: Self)
        ensures
            !r.is_open,
    {
        BrowserState { is_open: false }
    }
}

impl BrowserState {
    /// Records that the window was opened.
    pub fn opened(&mut self)
        ensures
            final(self).is_open,
    {
        self.is_open = true;
    }

    /// Records that the window was closed.
    pub fn closed(&mut self)
        ensures
            !final(self).is_open,
    {
        self.is_open = false;
    }
}

/// Prefix under which the extraction script puts the URLs it found, as a
/// JSON array, in the page title.
pub open spec fn streams_title_prefix() -> Seq<char> {
    "VI_STREAMS:"@
}

/// The JSON text after the prefix, for a title that starts with it.
pub open spec fn title_payload(title: Seq<char>) -> Option<Seq<char>> {
    if starts_with(title, streams_title_prefix()) {
        Some(title.skip(streams_title_prefix().len() as int))
    } else {
        None
    }
}

/// What `serde_json::from_str::<Vec<String>>(text)` gives, if the text is
/// a JSON array of strings.
pub uninterp spec fn json_string_array(text: Seq<char>) -> Option<Seq<Seq<char>>>;

/// `serde_json::from_str::<Vec<String>>(text)`, with the error dropped.
#[verifier::external_body]
fn parse_string_array(text: &str) -> (r: Option<Vec<String>>)
    ensures
        match r {
            Some(v) => json_string_array(text@) == Some(v@.map_values(|s: String| s@)),
            None => json_string_array(text@) is None,
        },
{
    serde_json::from_str::<Vec<String>>(text).ok()
}

/// The stream URLs a polled page title carries: the JSON array after the
/// prefix; nothing for another title or an unreadable array.
pub open spec fn title_streams(title: Seq<char>) -> Seq<Seq<char>> {
    match title_payload(title) {
        Some(j) => match json_string_array(j) {
            Some(urls) => urls,
            None => seq![],
        },
        None => seq![],
    }
}

/// `browser_poll_detected`'s reading of the page title.
pub fn polled_streams(title: &str) -> (r: Vec<String>)
    ensures
        r@.map_values(|s: String| s@) == title_streams(title@),
{
    let v = chars_of(title);
    if starts_with_str(&v, "VI_STREAMS:") {
        proof {
            reveal_strlit("VI_STREAMS:");
        }
        let rest = suffix(&v, 11);
        let json = string_of(&rest);
        match parse_string_array(json.as_str()) {
            Some(urls) => urls,
            None => {
                let r: Vec<String> = Vec::new();
                assert(r@.map_values(|s: String| s@) =~= Seq::<Seq<char>>::empty());
                r
            },
        }
    } else {
        let r: Vec<String> = Vec::new();
        assert(r@.map_values(|s: String| s@) =~= Seq::<Seq<char>>::empty());
        r
    }
}

} // verus!
