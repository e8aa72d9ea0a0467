//! The ffmpeg side of downloads with separate audio and video playlists:
//! the command line it is given and the progress lines it prints. Finding
//! and running the binary is the application's part.
use vstd::prelude::*;
use crate::text::{
    all_digits, chars_of, digits_value, parse_u64, parse_u64_exec, starts_with, starts_with_str,
    str_to_string, string_of, suffix, trim, trimmed,
};
use crate::m3u8::digits_saturating;
use crate::types::opt_view;

verus! {

/// The browser User-Agent that CDNs expect (ffmpeg's own is refused by some).
pub open spec fn browser_ua() -> Seq<char> {
    "Mozilla/5.0 (Macintosh; Intel Mac OS X 10_15_7) AppleWebKit/537.36 (KHTML, like Gecko) Chrome/131.0.0.0 Safari/537.36"@
}

/// Network options put before each input: the User-Agent and, with a
/// referer, a `Referer:` header line.
pub open spec fn input_options(referer: Option<Seq<char>>) -> Seq<Seq<char>> {
    seq!["-user_agent"@, browser_ua()] + match referer {
        Some(r) => seq!["-headers"@, "Referer: "@ + r + "\r\n"@],
        None => seq![],
    }
}

/// The arguments of `download_mux`: quiet, overwrite; the video input and
/// the optional audio input, each with the network options; the stream
/// mapping (video of input 0 and audio of input 1, or all of input 0);
/// stream copy, faststart, progress on stdout; the output path.
pub open spec fn mux_args(video_url: Seq<char>, audio_url: Option<Seq<char>>, referer: Option<Seq<char>>, output: Seq<char>) -> Seq<Seq<char>> {
    seq!["-hide_banner"@, "-loglevel"@, "error"@, "-y"@] + input_options(referer) + seq!["-i"@, video_url]
        + match audio_url {
        Some(a) => input_options(referer) + seq!["-i"@, a],
        None => seq![],
    } + match audio_url {
        Some(_) => seq!["-map"@, "0:v:0"@, "-map"@, "1:a:0"@],
        None => seq!["-map"@, "0"@],
    } + seq!["-c"@, "copy"@, "-movflags"@, "+faststart"@, "-progress"@, "pipe:1"@, "-nostats"@, output]
}

pub open spec fn strings_view(v: Seq<String>) -> Seq<Seq<char>> {
    v.map_values(|s: String| s@)
}

fn push_arg(args: &mut Vec<String>, s: String)
    ensures
        strings_view(final(args)@) == strings_view(old(args)@).push(s@),
{
    args.push(s);
    assert(strings_view(args@) =~= strings_view(old(args)@).push(s@));
}

fn push_lit(args: &mut Vec<String>, s: &str)
    ensures
        strings_view(final(args)@) == strings_view(old(args)@).push(s@),
{
    push_arg(args, str_to_string(s));
}

fn push_input_options(args: &mut Vec<String>, referer: Option<&str>)
    ensures
        strings_view(final(args)@) == strings_view(old(args)@) + input_options(
            match referer { Some(r) => Some(r@), None => None },
        ),
{
    push_lit(args, "-user_agent");
    push_lit(
        args,
        "Mozilla/5.0 (Macintosh; Intel Mac OS X 10_15_7) AppleWebKit/537.36 (KHTML, like Gecko) Chrome/131.0.0.0 Safari/537.36",
    );
    if let Some(r) = referer {
        push_lit(args, "-headers");
        let mut h: Vec<char> = Vec::new();
        crate::text::push_str(&mut h, "Referer: ");
        crate::text::push_str(&mut h, r);
        crate::text::push_str(&mut h, "\r\n");
        push_arg(args, string_of(&h));
    }
    proof {
        let rv = match referer { Some(r) => Some(r@), None => None };
        assert(strings_view(args@) =~= strings_view(old(args)@) + input_options(rv));
    }
}

/// The ffmpeg command line of `download_mux`.
pub fn mux_arguments(video_url: &str, audio_url: Option<&str>, referer: Option<&str>, output: &str) -> (r: Vec<String>)
    ensures
        strings_view(r@) == mux_args(
            video_url@,
            match audio_url { Some(a) => Some(a@), None => None },
            match referer { Some(x) => Some(x@), None => None },
            output@,
        ),
{
    let mut args: Vec<String> = Vec::new();
    push_lit(&mut args, "-hide_banner");
    push_lit(&mut args, "-loglevel");
    push_lit(&mut args, "error");
    push_lit(&mut args, "-y");
    let ghost a0 = strings_view(args@);
    push_input_options(&mut args, referer);
    push_lit(&mut args, "-i");
    push_lit(&mut args, video_url);
    let ghost a1 = strings_view(args@);
    if let Some(a) = audio_url {
        push_input_options(&mut args, referer);
        push_lit(&mut args, "-i");
        push_lit(&mut args, a);
    }
    let ghost a2 = strings_view(args@);
    if audio_url.is_some() {
        push_lit(&mut args, "-map");
        push_lit(&mut args, "0:v:0");
        push_lit(&mut args, "-map");
        push_lit(&mut args, "1:a:0");
    } else {
        push_lit(&mut args, "-map");
        push_lit(&mut args, "0");
    }
    let ghost a3 = strings_view(args@);
    push_lit(&mut args, "-c");
    push_lit(&mut args, "copy");
    push_lit(&mut args, "-movflags");
    push_lit(&mut args, "+faststart");
    push_lit(&mut args, "-progress");
    push_lit(&mut args, "pipe:1");
    push_lit(&mut args, "-nostats");
    push_lit(&mut args, output);
    proof {
        let av = match audio_url { Some(a) => Some(a@), None => None };
        let rv = match referer { Some(x) => Some(x@), None => None };
        assert(a0 =~= seq!["-hide_banner"@, "-loglevel"@, "error"@, "-y"@]);
        assert(a1 =~= a0 + input_options(rv) + seq!["-i"@, video_url@]);
        assert(a2 =~= a1 + match av {
            Some(a) => input_options(rv) + seq!["-i"@, a],
            None => seq![],
        });
        assert(a3 =~= a2 + match av {
            Some(_) => seq!["-map"@, "0:v:0"@, "-map"@, "1:a:0"@],
            None => seq!["-map"@, "0"@],
        });
        assert(strings_view(args@) =~= a3 + seq!["-c"@, "copy"@, "-movflags"@, "+faststart"@, "-progress"@, "pipe:1"@, "-nostats"@, output@]);
    }
    args
}

/// A line of ffmpeg's `-progress` output, as `download_mux` reads it.
#[derive(Clone, Copy, Debug, PartialEq, Eq)]
pub enum ProgressLine {
    /// `out_time_us=` with a non-negative value: microseconds processed.
    OutTimeUs(u64),
    /// `progress=end`: ffmpeg finished.
    End,
    /// Anything else.
    Other,
}

/// `v.trim().parse::<i64>()` when it gives a value `>= 0`.
pub open spec fn nonneg_i64(t: Seq<char>) -> Option<u64> {
    if t.len() > 0 && t[0] == '-' {
        let d = t.skip(1);
        if d.len() > 0 && all_digits(d) && digits_value(d) == 0 {
            Some(0)
        } else {
            None
        }
    } else {
        match parse_u64(t) {
            Some(v) => if v <= i64::MAX {
                Some(v)
            } else {
                None
            },
            None => None,
        }
    }
}

/// What `download_mux` takes from one progress line.
pub open spec fn progress_of(line: Seq<char>) -> ProgressLine {
    if starts_with(line, "out_time_us="@) {
        match nonneg_i64(trim(line.skip(12))) {
            Some(v) => ProgressLine::OutTimeUs(v),
            None => ProgressLine::Other,
        }
    } else if starts_with(line, "progress=end"@) {
        ProgressLine::End
    } else {
        ProgressLine::Other
    }
}

/// Reads one line of ffmpeg's `-progress pipe:1` output.
pub fn parse_progress_line(line: &str) -> (r: ProgressLine)
    ensures
        r == progress_of(line@),
{
    let lv = chars_of(line);
    proof {
        reveal_strlit("out_time_us=");
        assert(lv@.len() == lv.len());
    }
    if starts_with_str(&lv, "out_time_us=") {
        let t = trimmed(&lv, 12, lv.len());
        assert(lv@.subrange(12, lv@.len() as int) == lv@.skip(12));
        if t.len() > 0 && t[0] == '-' {
            let (v, all) = digits_saturating(&t, 1, t.len());
            assert(t@.subrange(1, t@.len() as int) == t@.skip(1));
            if t.len() > 1 && all && v == 0 {
                return ProgressLine::OutTimeUs(0);
            }
            return ProgressLine::Other;
        }
        match parse_u64_exec(&t) {
            Some(v) => if v <= i64::MAX as u64 {
                ProgressLine::OutTimeUs(v)
            } else {
                ProgressLine::Other
            },
            None => ProgressLine::Other,
        }
    } else if starts_with_str(&lv, "progress=end") {
        ProgressLine::End
    } else {
        ProgressLine::Other
    }
}

/// Where ffmpeg is looked for before the `PATH`, in order.
pub open spec fn ffmpeg_paths() -> Seq<Seq<char>> {
    seq!["/opt/homebrew/bin/ffmpeg"@, "/usr/local/bin/ffmpeg"@, "/opt/local/bin/ffmpeg"@, "/usr/bin/ffmpeg"@]
}

/// The usual install places of ffmpeg (Homebrew on ARM and Intel, MacPorts,
/// Linux), in the order they are tried.
pub fn ffmpeg_candidates() -> (r: Vec<String>)
    ensures
        r@.map_values(|s: String| s@) == ffmpeg_paths(),
{
    let mut r: Vec<String> = Vec::new();
    r.push(str_to_string("/opt/homebrew/bin/ffmpeg"));
    r.push(str_to_string("/usr/local/bin/ffmpeg"));
    r.push(str_to_string("/opt/local/bin/ffmpeg"));
    r.push(str_to_string("/usr/bin/ffmpeg"));
    assert(r@.map_values(|s: String| s@) =~= ffmpeg_paths());
    r
}

/// The first candidate present on disk (`present[i]` for candidate `i`),
/// from index `i`.
pub open spec fn first_present_path(paths: Seq<Seq<char>>, present: Seq<bool>, i: int) -> Option<Seq<char>>
    decreases paths.len() - i,
{
    if i < 0 || i >= paths.len() {
        None
    } else if i < present.len() && present[i] {
        Some(paths[i])
    } else {
        first_present_path(paths, present, i + 1)
    }
}

/// `find_ffmpeg`'s answer: the first candidate present; else what a
/// successful `which ffmpeg` printed, trimmed, when not empty.
pub open spec fn ffmpeg_location(present: Seq<bool>, which_output: Option<Seq<char>>) -> Option<Seq<char>> {
    match first_present_path(ffmpeg_paths(), present, 0) {
        Some(p) => Some(p),
        None => match which_output {
            Some(o) => if trim(o).len() > 0 {
                Some(trim(o))
            } else {
                None
            },
            None => None,
        },
    }
}

/// `find_ffmpeg`, given which candidates exist and what `which ffmpeg`
/// printed (when it succeeded).
pub fn find_ffmpeg(present: &Vec<bool>, which_output: Option<&str>) -> (r: Option<String>)
    ensures
        opt_view(r) == ffmpeg_location(present@, match which_output { Some(o) => Some(o@), None => None }),
{
    let paths = ffmpeg_candidates();
    let ghost pv = paths@.map_values(|s: String| s@);
    let mut i: usize = 0;
    while i < paths.len()
        invariant
            i <= paths@.len(),
            pv == paths@.map_values(|s: String| s@),
            pv == ffmpeg_paths(),
            first_present_path(pv, present@, 0) == first_present_path(pv, present@, i as int),
        decreases paths@.len() - i,
    {
        assert(pv[i as int] == paths@[i as int]@);
        if i < present.len() && present[i] {
            return Some(paths[i].clone());
        }
        i += 1;
    }
    match which_output {
        Some(o) => {
            let ov = chars_of(o);
            let t = trimmed(&ov, 0, ov.len());
            assert(ov@.subrange(0, ov@.len() as int) == ov@);
            if t.len() > 0 {
                Some(string_of(&t))
            } else {
                None
            }
        },
        None => None,
    }
}

/// `is_available()`: whether ffmpeg was found.
pub fn is_available(present: &Vec<bool>, which_output: Option<&str>) -> (r: bool)
    ensures
        r == ffmpeg_location(present@, match which_output { Some(o) => Some(o@), None => None }) is Some,
{
    find_ffmpeg(present, which_output).is_some()
}

} // verus!
