//! The decisions behind the application's commands: what the interface may
//! see of the saved logins, which streams an analysis registers, and how a
//! members' area lesson becomes a video.
use vstd::prelude::*;
use crate::config::{creds_view, SiteCredential, SiteCredentialView};
use crate::extractors::{vimeo_id_from_url, vimeo_pattern};
use crate::patterns::regex_group1;
use crate::sniffer::{now_millis, pairs_view, register_effect, DetectedStream, DetectedStreamView, SnifferState};
use crate::text::{chars_of, contains, contains_str, str_to_string, string_of};
use crate::types::{opt_view, streams_view, StreamInfoView, VideoFound, VideoFoundView};

verus! {

// ---------------------------------------------------------------------------
// Saved logins
// ---------------------------------------------------------------------------

/// What replaces a saved password before the list reaches the interface.
pub open spec fn password_mask() -> Seq<char> {
    "••••••••"@
}

/// A credential as the interface sees it: a non-empty password masked.
pub open spec fn masked(c: SiteCredentialView) -> SiteCredentialView {
    SiteCredentialView {
        host: c.host,
        email: c.email,
        password: if c.password.len() == 0 {
            c.password
        } else {
            password_mask()
        },
    }
}

/// `list_site_credentials`: the saved logins with their passwords masked.
pub fn masked_credentials(list: &Vec<SiteCredential>) -> (r: Vec<SiteCredential>)
    ensures
        creds_view(r@) == creds_view(list@).map_values(|c: SiteCredentialView| masked(c)),
{
    let mut r: Vec<SiteCredential> = Vec::new();
    let mut i: usize = 0;
    while i < list.len()
        invariant
            i <= list@.len(),
            creds_view(r@) == creds_view(list@.take(i as int)).map_values(|c: SiteCredentialView| masked(c)),
        decreases list@.len() - i,
    {
        let c = &list[i];
        let pv = chars_of(c.password.as_str());
        let password = if pv.len() == 0 {
            c.password.clone()
        } else {
            str_to_string("••••••••")
        };
        let m = SiteCredential { host: c.host.clone(), email: c.email.clone(), password };
        let ghost r0 = creds_view(r@);
        r.push(m);
        proof {
            assert(m@ == masked(c@));
            assert(list@.take(i + 1) == list@.take(i as int).push(list@[i as int]));
            assert(creds_view(r@) =~= r0.push(m@));
            assert(creds_view(list@.take(i + 1)).map_values(|c: SiteCredentialView| masked(c))
                =~= creds_view(list@.take(i as int)).map_values(|c: SiteCredentialView| masked(c)).push(m@));
        }
        i += 1;
    }
    assert(list@.take(list@.len() as int) == list@);
    r
}

// ---------------------------------------------------------------------------
// Streams found by an analysis
// ---------------------------------------------------------------------------

/// The record registered for a stream found by an analysis: an HLS playlist
/// of the given source, with no headers and no time.
pub open spec fn analyzed_record(url: Seq<char>, source: Seq<char>) -> DetectedStreamView {
    DetectedStreamView {
        url,
        content_type: Some("application/x-mpegurl"@),
        source,
        headers: seq![],
        timestamp: 0,
    }
}

/// The register after the first `n` streams were offered to it, in order.
pub open spec fn registered_streams(s: Seq<DetectedStreamView>, streams: Seq<StreamInfoView>, source: Seq<char>, n: int) -> Seq<DetectedStreamView>
    decreases n,
{
    if n <= 0 || n > streams.len() {
        s
    } else {
        register_effect(registered_streams(s, streams, source, n - 1), analyzed_record(streams[n - 1].url, source)).1
    }
}

/// `analyze_url`'s bookkeeping: each stream of the video is offered to the
/// register under `source` (`"analyzer"` or `"memberkit"`); gives how many
/// streams the video has.
pub fn register_video_streams(sniffer: &mut SnifferState, video: &VideoFound, source: &str) -> (r: usize)
    requires
        old(sniffer).wf(),
    ensures
        final(sniffer).wf(),
        r == video@.streams.len(),
        final(sniffer)@ == registered_streams(old(sniffer)@, video@.streams, source@, video@.streams.len() as int),
{
    let mut i: usize = 0;
    while i < video.streams.len()
        invariant
            i <= video.streams@.len(),
            sniffer.wf(),
            sniffer@ == registered_streams(old(sniffer)@, video@.streams, source@, i as int),
        decreases video.streams@.len() - i,
    {
        let d = DetectedStream {
            url: video.streams[i].url.clone(),
            content_type: Some(str_to_string("application/x-mpegurl")),
            source: str_to_string(source),
            headers: Vec::new(),
            timestamp: 0,
        };
        proof {
            assert(video@.streams[i as int] == video.streams@[i as int]@);
            assert(pairs_view(d.headers@) =~= Seq::<(Seq<char>, Seq<char>)>::empty());
            assert(d@ == analyzed_record(video@.streams[i as int].url, source@));
        }
        sniffer.register(d);
        i += 1;
    }
    video.streams.len()
}

/// `report_detected_stream`: a URL reported by the interface, seen at
/// `timestamp`, offered to the register; tells whether it was new.
pub fn report_stream(sniffer: &mut SnifferState, url: String, source: String, timestamp: u64) -> (r: bool)
    requires
        old(sniffer).wf(),
    ensures
        final(sniffer).wf(),
        (r, final(sniffer)@) == register_effect(
            old(sniffer)@,
            DetectedStreamView { url: url@, content_type: None, source: source@, headers: seq![], timestamp },
        ),
{
    let d = DetectedStream { url, content_type: None, source, headers: Vec::new(), timestamp };
    assert(pairs_view(d.headers@) =~= Seq::<(Seq<char>, Seq<char>)>::empty());
    sniffer.register(d)
}

/// [`report_stream`] stamped with the current time of the system clock;
/// nothing is claimed of the time itself.
pub fn report_stream_now(sniffer: &mut SnifferState, url: String, source: String) -> (r: bool)
    requires
        old(sniffer).wf(),
    ensures
        final(sniffer).wf(),
        exists|t: u64|
            (r, final(sniffer)@) == #[trigger] register_effect(
                old(sniffer)@,
                DetectedStreamView { url: url@, content_type: None, source: source@, headers: seq![], timestamp: t },
            ),
{
    let ghost (u, s) = (url@, source@);
    let now = now_millis();
    let r = report_stream(sniffer, url, source, now);
    assert((r, sniffer@) == register_effect(
        old(sniffer)@,
        DetectedStreamView { url: u, content_type: None, source: s, headers: seq![], timestamp: now },
    ));
    r
}

// ---------------------------------------------------------------------------
// Members' area lessons
// ---------------------------------------------------------------------------

/// `analyze_url` takes MemberKit addresses through the logged-in browser.
pub fn is_memberkit_url(url: &str) -> (r: bool)
    ensures
        r == contains(url@, "memberkit.com.br"@),
{
    let v = chars_of(url);
    contains_str(&v, "memberkit.com.br")
}

/// The Vimeo id of the first frame address that has one, from frame `i`.
pub open spec fn first_vimeo_id(frames: Seq<Seq<char>>, i: int) -> Option<Seq<char>>
    decreases frames.len() - i,
{
    if i < 0 || i >= frames.len() {
        None
    } else {
        match regex_group1(vimeo_pattern(), frames[i]) {
            Some(id) => Some(id),
            None => first_vimeo_id(frames, i + 1),
        }
    }
}

/// The answer when a lesson's frames hold no Vimeo player.
pub open spec fn no_vimeo_message() -> Seq<char> {
    "Nenhum vídeo Vimeo encontrado nesta aula. (Ela usa outro player?)"@
}

/// `analyze_memberkit`'s choice of video: the id of the first frame that is
/// a Vimeo player.
pub fn lesson_vimeo_id(frames: &Vec<String>) -> (r: Result<String, String>)
    ensures
        match r {
            Ok(id) => first_vimeo_id(frames@.map_values(|s: String| s@), 0) == Some(id@),
            Err(e) => first_vimeo_id(frames@.map_values(|s: String| s@), 0) is None && e@ == no_vimeo_message(),
        },
{
    let ghost fv = frames@.map_values(|s: String| s@);
    let mut i: usize = 0;
    while i < frames.len()
        invariant
            i <= frames@.len(),
            fv == frames@.map_values(|s: String| s@),
            first_vimeo_id(fv, 0) == first_vimeo_id(fv, i as int),
        decreases frames@.len() - i,
    {
        assert(fv[i as int] == frames@[i as int]@);
        match vimeo_id_from_url(frames[i].as_str()) {
            Some(id) => {
                return Ok(id);
            },
            None => {},
        }
        i += 1;
    }
    Err(str_to_string("Nenhum vídeo Vimeo encontrado nesta aula. (Ela usa outro player?)"))
}

/// The answer when the Vimeo player gives no stream.
pub open spec fn vimeo_failed_message() -> Seq<char> {
    "Não foi possível extrair o stream do Vimeo (pode estar protegido por DRM)."@
}

/// The message `analyze_memberkit` fails with when the Vimeo player gives
/// no stream (DRM, most often).
pub fn vimeo_failed() -> (r: String)
    ensures
        r@ == vimeo_failed_message(),
{
    str_to_string("Não foi possível extrair o stream do Vimeo (pode estar protegido por DRM).")
}

/// The analysed Vimeo stream presented as the lesson: the player's title
/// when it has one, and the lesson page as the page address.
pub fn lesson_video(video: VideoFound, player_title: Option<String>, lesson_url: &str) -> (r: VideoFound)
    ensures
        r@ == (VideoFoundView {
            page_url: lesson_url@,
            title: if player_title is Some {
                opt_view(player_title)
            } else {
                video@.title
            },
            ..video@
        }),
{
    let mut v = video;
    if let Some(t) = player_title {
        v.title = Some(t);
    }
    let pv = chars_of(lesson_url);
    v.page_url = string_of(&pv);
    v
}

} // verus!
