//! Whole-course downloads: the course tree shown to the user, file and folder
//! names, and the per-lesson decisions. Fetching, browsing and ffmpeg runs
//! belong to the application.
use vstd::prelude::*;
use crate::text::{
    after_last_char, ascii_upper, chars_of, is_ws, trim_end, trim_start, contains, contains_str, decimal, find_char, find_char_from, lemma_find_char_lt, slice_chars, suffix, decimal_exec, ends_with, ends_with_str, before_char, lowercase, push_range,
    push_str, string_of, str_to_string, to_lowercase, trim, trimmed,
};
use crate::m3u8::{before_char_exec, eq_chars};
use crate::urls::{first_path_segment, host_str, scheme_str, url_first_segment, url_host, url_scheme};
use crate::types::{copy_opt, opt_view};
use crate::sniffer::pairs_view;
use crate::chrome::{
    course_lessons_view, mk_lessons_view, CourseLesson, CourseLessonView, MemberkitLesson, MemberkitLessonView,
};

verus! {

// ---------------------------------------------------------------------------
// Names on disk
// ---------------------------------------------------------------------------

/// Characters that cannot stand in a file or folder name.
pub open spec fn forbidden_in_name(c: char) -> bool {
    c == '/' || c == '\\' || c == ':' || c == '*' || c == '?' || c == '"' || c == '<' || c == '>' || c == '|'
}

/// One character of a sanitized name: forbidden ones become `-`, control
/// characters a space, the rest stays (accents included).
pub open spec fn clean_char(c: char) -> char {
    if forbidden_in_name(c) {
        '-'
    } else if (c as u32) < 0x20 {
        ' '
    } else {
        c
    }
}

/// `str::trim_end_matches('.')`.
pub open spec fn trim_end_dots(s: Seq<char>) -> Seq<char>
    decreases s.len(),
{
    if s.len() > 0 && s.last() == '.' {
        trim_end_dots(s.drop_last())
    } else {
        s
    }
}

/// A name made safe for the file system: characters cleaned, then trimmed,
/// trailing dots dropped, trimmed again.
pub open spec fn sanitized(s: Seq<char>) -> Seq<char> {
    trim(trim_end_dots(trim(s.map_values(|c: char| clean_char(c)))))
}

fn clean_char_exec(c: char) -> (r: char)
    ensures
        r == clean_char(c),
{
    if c == '/' || c == '\\' || c == ':' || c == '*' || c == '?' || c == '"' || c == '<' || c == '>' || c == '|' {
        '-'
    } else if (c as u32) < 0x20 {
        ' '
    } else {
        c
    }
}

/// Removes what a file or folder name cannot hold, keeping accents.
pub fn sanitize(s: &str) -> (r: String)
    ensures
        r@ == sanitized(s@),
{
    let v = chars_of(s);
    let mut cleaned: Vec<char> = Vec::new();
    let mut i: usize = 0;
    while i < v.len()
        invariant
            i <= v@.len(),
            v@ == s@,
            cleaned@ == v@.take(i as int).map_values(|c: char| clean_char(c)),
        decreases v@.len() - i,
    {
        let c = clean_char_exec(v[i]);
        cleaned.push(c);
        assert(v@.take(i + 1).map_values(|c: char| clean_char(c)) =~= v@.take(i as int).map_values(
            |c: char| clean_char(c),
        ).push(clean_char(v@[i as int])));
        i += 1;
    }
    assert(v@.take(v@.len() as int) == v@);
    let t = trimmed(&cleaned, 0, cleaned.len());
    assert(cleaned@.subrange(0, cleaned@.len() as int) == cleaned@);
    let mut end = t.len();
    assert(t@.take(end as int) == t@);
    while end > 0 && t[end - 1] == '.'
        invariant
            end <= t@.len(),
            trim_end_dots(t@) == trim_end_dots(t@.take(end as int)),
        decreases end,
    {
        assert(t@.take(end as int).drop_last() == t@.take(end - 1));
        end -= 1;
    }
    let r = trimmed(&t, 0, end);
    proof {
        assert(t@.subrange(0, end as int) == t@.take(end as int));
    }
    string_of(&r)
}

/// A character that may stand in a name on disk.
pub open spec fn name_char_ok(c: char) -> bool {
    !forbidden_in_name(c) && (c as u32) >= 0x20
}

pub open spec fn name_chars_ok(s: Seq<char>) -> bool {
    forall|k: int| 0 <= k < s.len() ==> name_char_ok(#[trigger] s[k])
}

proof fn lemma_trim_start_keeps(s: Seq<char>)
    requires
        name_chars_ok(s),
    ensures
        name_chars_ok(trim_start(s)),
    decreases s.len(),
{
    if s.len() > 0 && is_ws(s[0]) {
        assert forall|k: int| 0 <= k < s.drop_first().len() implies name_char_ok(#[trigger] s.drop_first()[k]) by {
            assert(s.drop_first()[k] == s[k + 1]);
        }
        lemma_trim_start_keeps(s.drop_first());
    }
}

proof fn lemma_trim_end_keeps(s: Seq<char>)
    requires
        name_chars_ok(s),
    ensures
        name_chars_ok(trim_end(s)),
        trim_end(s).len() > 0 ==> !is_ws(trim_end(s).last()),
    decreases s.len(),
{
    if s.len() > 0 && is_ws(s.last()) {
        assert forall|k: int| 0 <= k < s.drop_last().len() implies name_char_ok(#[trigger] s.drop_last()[k]) by {
            assert(s.drop_last()[k] == s[k]);
        }
        lemma_trim_end_keeps(s.drop_last());
    }
}

proof fn lemma_trim_end_dots_keeps(s: Seq<char>)
    requires
        name_chars_ok(s),
    ensures
        name_chars_ok(trim_end_dots(s)),
    decreases s.len(),
{
    if s.len() > 0 && s.last() == '.' {
        assert forall|k: int| 0 <= k < s.drop_last().len() implies name_char_ok(#[trigger] s.drop_last()[k]) by {
            assert(s.drop_last()[k] == s[k]);
        }
        lemma_trim_end_dots_keeps(s.drop_last());
    }
}

proof fn lemma_trim_start_head(s: Seq<char>)
    ensures
        trim_start(s).len() > 0 ==> !is_ws(trim_start(s)[0]),
    decreases s.len(),
{
    if s.len() > 0 && is_ws(s[0]) {
        lemma_trim_start_head(s.drop_first());
    }
}

proof fn lemma_trim_end_head(s: Seq<char>)
    ensures
        trim_end(s).len() > 0 ==> trim_end(s)[0] == s[0],
        trim_end(s).len() <= s.len(),
    decreases s.len(),
{
    if s.len() > 0 && is_ws(s.last()) {
        lemma_trim_end_head(s.drop_last());
    }
}

/// Law: a sanitized name holds none of the forbidden characters and no
/// control character, and neither starts nor ends with whitespace.
pub proof fn lemma_sanitized_is_safe(s: Seq<char>)
    ensures
        forall|k: int| 0 <= k < sanitized(s).len() ==> !forbidden_in_name(#[trigger] sanitized(s)[k])
            && (sanitized(s)[k] as u32) >= 0x20,
        sanitized(s).len() > 0 ==> !is_ws(sanitized(s)[0]) && !is_ws(sanitized(s).last()),
{
    let m = s.map_values(|c: char| clean_char(c));
    assert(name_chars_ok(m));
    lemma_trim_start_keeps(m);
    lemma_trim_end_keeps(trim_start(m));
    let t1 = trim(m);
    lemma_trim_end_dots_keeps(t1);
    let t2 = trim_end_dots(t1);
    lemma_trim_start_keeps(t2);
    lemma_trim_end_keeps(trim_start(t2));
    lemma_trim_start_head(t2);
    lemma_trim_end_head(trim_start(t2));
    assert(name_chars_ok(sanitized(s)));
}

/// `format!("{:02}", n)`: the decimal of `n`, with a leading zero below ten.
pub open spec fn two_digits(n: nat) -> Seq<char> {
    if n < 10 {
        seq!['0'] + decimal(n)
    } else {
        decimal(n)
    }
}

/// `"{:02}. {}"` with the sanitized name: how modules, lessons and
/// attachments are numbered on disk.
pub open spec fn numbered(n: nat, name: Seq<char>) -> Seq<char> {
    two_digits(n) + ". "@ + sanitized(name)
}

fn numbered_exec(n: usize, name: &str) -> (r: Vec<char>)
    ensures
        r@ == numbered(n as nat, name@),
{
    let mut out: Vec<char> = Vec::new();
    if n < 10 {
        out.push('0');
    }
    let d = decimal_exec(n as u64);
    push_range(&mut out, &d, 0, d.len());
    push_str(&mut out, ". ");
    let s = sanitize(name);
    push_str(&mut out, s.as_str());
    proof {
        assert(d@.subrange(0, d@.len() as int) == d@);
        if n < 10 {
            assert(out@ =~= seq!['0'] + decimal(n as nat) + ". "@ + sanitized(name@));
        } else {
            assert(out@ =~= decimal(n as nat) + ". "@ + sanitized(name@));
        }
    }
    out
}

/// Folder of a module: `"{:02}. {module name}"`.
pub fn module_dir_name(module_index: usize, module_name: &str) -> (r: String)
    ensures
        r@ == numbered(module_index as nat, module_name@),
{
    let v = numbered_exec(module_index, module_name);
    string_of(&v)
}

/// Video file of a lesson: `"{:02}. {title}.mp4"`.
pub fn lesson_file_name(lesson_index: usize, title: &str) -> (r: String)
    ensures
        r@ == numbered(lesson_index as nat, title@) + ".mp4"@,
{
    let mut v = numbered_exec(lesson_index, title);
    push_str(&mut v, ".mp4");
    string_of(&v)
}

/// File of an attachment of a lesson: `"{:02}. {attachment name}"`.
pub fn attachment_file_name(lesson_index: usize, name: &str) -> (r: String)
    ensures
        r@ == numbered(lesson_index as nat, name@),
{
    let v = numbered_exec(lesson_index, name);
    string_of(&v)
}

// ---------------------------------------------------------------------------
// Attachments
// ---------------------------------------------------------------------------

/// Kind of an attachment: `"pdf"` when the address (query left out) ends
/// in `.pdf`, any case; `"file"` otherwise.
pub open spec fn attachment_kind(url: Seq<char>) -> Seq<char> {
    if ends_with(lowercase(before_char(url, '?')), ".pdf"@) {
        "pdf"@
    } else {
        "file"@
    }
}

/// Kind of an attachment by its address.
pub fn kind_of(url: &str) -> (r: String)
    ensures
        r@ == attachment_kind(url@),
{
    let v = chars_of(url);
    let head = before_char_exec(&v, '?');
    let hs = string_of(&head);
    let low = to_lowercase(hs.as_str());
    let lv = chars_of(low.as_str());
    if ends_with_str(&lv, ".pdf") {
        str_to_string("pdf")
    } else {
        str_to_string("file")
    }
}

// ---------------------------------------------------------------------------
// Course names
// ---------------------------------------------------------------------------

/// What `char::to_uppercase` yields for `c`, collected.
pub uninterp spec fn char_uppercase(c: char) -> Seq<char>;

/// `char::to_uppercase`, collected: an ASCII character gives its ASCII
/// capital (itself when it is no small letter); any other character gives
/// the Unicode result.
pub open spec fn upper_of(c: char) -> Seq<char> {
    if (c as u32) < 128 {
        seq![ascii_upper(c)]
    } else {
        char_uppercase(c)
    }
}

/// `c.to_uppercase().collect::<String>()` of std. The result is named;
/// beyond the name, the contract states the ASCII case (small letters to
/// capitals, every other ASCII character unchanged: they have no uppercase
/// mapping). Unicode's other mappings are left to the name.
#[verifier::external_body]
fn uppercase_char(c: char) -> (r: String)
    ensures
        r@ == char_uppercase(c),
        (c as u32) < 128 ==> r@ == seq![ascii_upper(c)],
        r@ == upper_of(c),
{
    c.to_uppercase().collect::<String>()
}

/// `str::trim_end_matches('/')`.
pub open spec fn trim_end_slashes(s: Seq<char>) -> Seq<char>
    decreases s.len(),
{
    if s.len() > 0 && s.last() == '/' {
        trim_end_slashes(s.drop_last())
    } else {
        s
    }
}

/// The words of a slug capitalised: each `-` becomes a space and the first
/// character of each word is upper-cased (`split('-')`, capitalise, `join(" ")`).
pub open spec fn title_words(s: Seq<char>, at_word_start: bool) -> Seq<char>
    decreases s.len(),
{
    if s.len() == 0 {
        seq![]
    } else if s[0] == '-' {
        seq![' '] + title_words(s.drop_first(), true)
    } else if at_word_start {
        upper_of(s[0]) + title_words(s.drop_first(), false)
    } else {
        seq![s[0]] + title_words(s.drop_first(), false)
    }
}

/// A course name from the slug of its root address: the last path part,
/// without the numeric id before the first `-`, in title case.
pub open spec fn course_name_of(root: Seq<char>) -> Seq<char> {
    let slug = after_last_char(trim_end_slashes(root), '/');
    let no_id = match find_char(slug, '-') {
        Some(i) => slug.skip(i + 1),
        None => slug,
    };
    title_words(no_id, true)
}

/// Readable course name from the root address (`…/210366-projeto-x` gives
/// `Projeto X`).
pub fn derive_name(root: &str) -> (r: String)
    ensures
        r@ == course_name_of(root@),
{
    let v = chars_of(root);
    let mut end = v.len();
    assert(v@.take(end as int) == v@);
    while end > 0 && v[end - 1] == '/'
        invariant
            end <= v@.len(),
            trim_end_slashes(v@) == trim_end_slashes(v@.take(end as int)),
        decreases end,
    {
        assert(v@.take(end as int).drop_last() == v@.take(end - 1));
        end -= 1;
    }
    let ghost t = v@.take(end as int);
    let mut start = end;
    while start > 0 && v[start - 1] != '/'
        invariant
            start <= end <= v@.len(),
            t == v@.take(end as int),
            after_last_char(t, '/') == after_last_char(v@.subrange(0, start as int), '/') + v@.subrange(start as int, end as int),
        decreases start,
    {
        proof {
            let a = v@.subrange(0, start as int);
            assert(a.drop_last() == v@.subrange(0, start - 1));
            assert(v@.subrange(start - 1, end as int) == seq![a.last()] + v@.subrange(start as int, end as int));
            assert(after_last_char(a, '/') == after_last_char(a.drop_last(), '/').push(a.last()));
            assert(after_last_char(a.drop_last(), '/').push(a.last()) + v@.subrange(start as int, end as int)
                =~= after_last_char(a.drop_last(), '/') + v@.subrange(start - 1, end as int));
        }
        start -= 1;
    }
    proof {
        let a = v@.subrange(0, start as int);
        if start > 0 {
            assert(a.last() == '/');
        }
        assert(after_last_char(a, '/') =~= seq![]);
        assert(after_last_char(t, '/') =~= v@.subrange(start as int, end as int));
        assert(trim_end_slashes(root@) == t);
    }
    let slug = slice_chars(&v, start, end);
    // Skip the numeric id: the text after the first '-', if there is one.
    let no_id = match find_char_from(&slug, '-', 0) {
        Some(d) => {
            proof {
                lemma_find_char_lt(slug@, '-');
            }
            suffix(&slug, d + 1)
        },
        None => slug,
    };
    let mut out: Vec<char> = Vec::new();
    let mut at_start = true;
    let mut i: usize = 0;
    assert(no_id@.subrange(0, no_id@.len() as int) == no_id@);
    while i < no_id.len()
        invariant
            i <= no_id@.len(),
            out@ + title_words(no_id@.subrange(i as int, no_id@.len() as int), at_start) == course_name_of(root@),
        decreases no_id@.len() - i,
    {
        let c = no_id[i];
        let ghost rest = no_id@.subrange(i as int, no_id@.len() as int);
        assert(rest.drop_first() == no_id@.subrange(i + 1, no_id@.len() as int));
        assert(rest[0] == c);
        let ghost o0 = out@;
        let ghost was = at_start;
        if c == '-' {
            out.push(' ');
            at_start = true;
        } else if at_start {
            let u = uppercase_char(c);
            let uv = chars_of(u.as_str());
            push_range(&mut out, &uv, 0, uv.len());
            assert(uv@.subrange(0, uv@.len() as int) == uv@);
            at_start = false;
        } else {
            out.push(c);
            at_start = false;
        }
        assert(out@ + title_words(no_id@.subrange(i + 1, no_id@.len() as int), at_start) =~= o0 + title_words(rest, was));
        i += 1;
    }
    proof {
        assert(no_id@.subrange(no_id@.len() as int, no_id@.len() as int) =~= seq![]);
        assert(out@ + seq![] == out@);
    }
    string_of(&out)
}

/// `scheme://host/first-path-segment`, when the URL has all three.
pub open spec fn course_root(url: Seq<char>) -> Option<Seq<char>> {
    match (url_scheme(url), url_host(url), url_first_segment(url)) {
        (Some(sc), Some(h), Some(seg)) => Some(sc + "://"@ + h + "/"@ + seg),
        _ => None,
    }
}

/// Root of a MemberKit course from a lesson address:
/// `scheme://host/{id}-slug`.
pub fn memberkit_root(url: &str) -> (r: Option<String>)
    ensures
        opt_view(r) == course_root(url@),
{
    let scheme = match scheme_str(url) {
        Some(sc) => sc,
        None => return None,
    };
    let host = match host_str(url) {
        Some(h) => h,
        None => return None,
    };
    let seg = match first_path_segment(url) {
        Some(g) => g,
        None => return None,
    };
    let mut out: Vec<char> = Vec::new();
    push_str(&mut out, scheme.as_str());
    push_str(&mut out, "://");
    push_str(&mut out, host.as_str());
    push_str(&mut out, "/");
    push_str(&mut out, seg.as_str());
    proof {
        assert(out@ =~= scheme@ + "://"@ + host@ + "/"@ + seg@);
    }
    Some(string_of(&out))
}

// ---------------------------------------------------------------------------
// The course tree
// ---------------------------------------------------------------------------

/// A material of a lesson.
#[derive(Debug)]
pub struct CourseAttachment {
    pub name: String,
    pub url: String,
    /// `"pdf"` or `"file"`.
    pub kind: String,
}

pub struct CourseAttachmentView {
    pub name: Seq<char>,
    pub url: Seq<char>,
    pub kind: Seq<char>,
}

impl View for CourseAttachment {
    type V = CourseAttachmentView;

    open spec fn view(&self) -> CourseAttachmentView {
        CourseAttachmentView { name: self.name@, url: self.url@, kind: self.kind@ }
    }
}

/// A lesson as the user sees it when choosing what to download.
#[derive(Debug)]
pub struct CourseLessonUI {
    pub key: String,
    pub module_index: usize,
    pub module_name: String,
    pub lesson_index: usize,
    pub title: String,
    pub has_video: bool,
    pub attachments: Vec<CourseAttachment>,
    /// Where the video comes from, for the download.
    pub vimeo_id: Option<String>,
    pub content_url: Option<String>,
}

pub struct CourseLessonUIView {
    pub key: Seq<char>,
    pub module_index: usize,
    pub module_name: Seq<char>,
    pub lesson_index: usize,
    pub title: Seq<char>,
    pub has_video: bool,
    pub attachments: Seq<CourseAttachmentView>,
    pub vimeo_id: Option<Seq<char>>,
    pub content_url: Option<Seq<char>>,
}

pub open spec fn attachments_view(v: Seq<CourseAttachment>) -> Seq<CourseAttachmentView> {
    v.map_values(|a: CourseAttachment| a@)
}

impl View for CourseLessonUI {
    type V = CourseLessonUIView;

    open spec fn view(&self) -> CourseLessonUIView {
        CourseLessonUIView {
            key: self.key@,
            module_index: self.module_index,
            module_name: self.module_name@,
            lesson_index: self.lesson_index,
            title: self.title@,
            has_video: self.has_video,
            attachments: attachments_view(self.attachments@),
            vimeo_id: opt_view(self.vimeo_id),
            content_url: opt_view(self.content_url),
        }
    }
}

/// A course: its platform (`"memberkit"` or `"hotmart"`), name and lessons.
#[derive(Debug)]
pub struct CourseTree {
    pub platform: String,
    pub course_name: String,
    pub lessons: Vec<CourseLessonUI>,
}

pub struct CourseTreeView {
    pub platform: Seq<char>,
    pub course_name: Seq<char>,
    pub lessons: Seq<CourseLessonUIView>,
}

pub open spec fn lessons_ui_view(v: Seq<CourseLessonUI>) -> Seq<CourseLessonUIView> {
    v.map_values(|l: CourseLessonUI| l@)
}

impl View for CourseTree {
    type V = CourseTreeView;

    open spec fn view(&self) -> CourseTreeView {
        CourseTreeView {
            platform: self.platform@,
            course_name: self.course_name@,
            lessons: lessons_ui_view(self.lessons@),
        }
    }
}

/// The attachment that a (name, address) pair of a lesson becomes.
pub open spec fn attachment_of(p: (Seq<char>, Seq<char>)) -> CourseAttachmentView {
    CourseAttachmentView { name: p.0, url: p.1, kind: attachment_kind(p.1) }
}

/// A MemberKit lesson as shown: keyed by its address, with video when it has
/// a Vimeo id.
pub open spec fn memberkit_ui(l: MemberkitLessonView) -> CourseLessonUIView {
    CourseLessonUIView {
        key: l.lesson_url,
        module_index: l.module_index,
        module_name: l.module_name,
        lesson_index: l.lesson_index,
        title: l.title,
        has_video: l.vimeo_id is Some,
        attachments: l.attachments.map_values(|p: (Seq<char>, Seq<char>)| attachment_of(p)),
        vimeo_id: l.vimeo_id,
        content_url: Some(l.lesson_url),
    }
}

/// A Hotmart lesson as shown: keyed by its content address, always a video,
/// no attachments listed.
pub open spec fn hotmart_ui(l: CourseLessonView) -> CourseLessonUIView {
    CourseLessonUIView {
        key: l.content_url,
        module_index: l.module_index,
        module_name: l.module_name,
        lesson_index: l.lesson_index,
        title: l.title,
        has_video: true,
        attachments: seq![],
        vimeo_id: None,
        content_url: Some(l.content_url),
    }
}

fn attachments_of(pairs: &Vec<(String, String)>) -> (r: Vec<CourseAttachment>)
    ensures
        attachments_view(r@) == pairs_view(pairs@).map_values(|p: (Seq<char>, Seq<char>)| attachment_of(p)),
{
    let mut r: Vec<CourseAttachment> = Vec::new();
    let mut i: usize = 0;
    while i < pairs.len()
        invariant
            i <= pairs@.len(),
            attachments_view(r@) == pairs_view(pairs@.take(i as int)).map_values(
                |p: (Seq<char>, Seq<char>)| attachment_of(p),
            ),
        decreases pairs@.len() - i,
    {
        let (name, url) = &pairs[i];
        let a = CourseAttachment { name: name.clone(), url: url.clone(), kind: kind_of(url.as_str()) };
        let ghost r0 = attachments_view(r@);
        r.push(a);
        proof {
            assert(pairs@.take(i + 1) == pairs@.take(i as int).push(pairs@[i as int]));
            assert(attachments_view(r@) =~= r0.push(a@));
            assert(pairs_view(pairs@.take(i + 1)).map_values(|p: (Seq<char>, Seq<char>)| attachment_of(p))
                =~= pairs_view(pairs@.take(i as int)).map_values(|p: (Seq<char>, Seq<char>)| attachment_of(p)).push(a@));
        }
        i += 1;
    }
    assert(pairs@.take(pairs@.len() as int) == pairs@);
    r
}

/// The tree of a MemberKit course: its lessons in page order, named after
/// the root's slug.
pub fn memberkit_tree(root: &str, lessons: &Vec<MemberkitLesson>) -> (r: CourseTree)
    ensures
        r@.platform == "memberkit"@,
        r@.course_name == course_name_of(root@),
        r@.lessons == mk_lessons_view(lessons@).map_values(|l: MemberkitLessonView| memberkit_ui(l)),
{
    let mut ui: Vec<CourseLessonUI> = Vec::new();
    let mut i: usize = 0;
    while i < lessons.len()
        invariant
            i <= lessons@.len(),
            lessons_ui_view(ui@) == mk_lessons_view(lessons@.take(i as int)).map_values(
                |l: MemberkitLessonView| memberkit_ui(l),
            ),
        decreases lessons@.len() - i,
    {
        let l = &lessons[i];
        let u = CourseLessonUI {
            key: l.lesson_url.clone(),
            module_index: l.module_index,
            module_name: l.module_name.clone(),
            lesson_index: l.lesson_index,
            title: l.title.clone(),
            has_video: l.vimeo_id.is_some(),
            attachments: attachments_of(&l.attachments),
            vimeo_id: copy_opt(&l.vimeo_id),
            content_url: Some(l.lesson_url.clone()),
        };
        let ghost u0 = lessons_ui_view(ui@);
        ui.push(u);
        proof {
            assert(u@ == memberkit_ui(l@));
            assert(lessons@.take(i + 1) == lessons@.take(i as int).push(lessons@[i as int]));
            assert(lessons_ui_view(ui@) =~= u0.push(u@));
            assert(mk_lessons_view(lessons@.take(i + 1)).map_values(|l: MemberkitLessonView| memberkit_ui(l))
                =~= mk_lessons_view(lessons@.take(i as int)).map_values(|l: MemberkitLessonView| memberkit_ui(l)).push(u@));
        }
        i += 1;
    }
    assert(lessons@.take(lessons@.len() as int) == lessons@);
    CourseTree { platform: str_to_string("memberkit"), course_name: derive_name(root), lessons: ui }
}

/// The tree of a Hotmart course: its video lessons, under a fixed name.
pub fn hotmart_tree(lessons: &Vec<CourseLesson>) -> (r: CourseTree)
    ensures
        r@.platform == "hotmart"@,
        r@.course_name == "Curso Hotmart"@,
        r@.lessons == course_lessons_view(lessons@).map_values(|l: CourseLessonView| hotmart_ui(l)),
{
    let mut ui: Vec<CourseLessonUI> = Vec::new();
    let mut i: usize = 0;
    while i < lessons.len()
        invariant
            i <= lessons@.len(),
            lessons_ui_view(ui@) == course_lessons_view(lessons@.take(i as int)).map_values(
                |l: CourseLessonView| hotmart_ui(l),
            ),
        decreases lessons@.len() - i,
    {
        let l = &lessons[i];
        let u = CourseLessonUI {
            key: l.content_url.clone(),
            module_index: l.module_index,
            module_name: l.module_name.clone(),
            lesson_index: l.lesson_index,
            title: l.title.clone(),
            has_video: true,
            attachments: Vec::new(),
            vimeo_id: None,
            content_url: Some(l.content_url.clone()),
        };
        let ghost u0 = lessons_ui_view(ui@);
        ui.push(u);
        proof {
            assert(attachments_view(u.attachments@) =~= Seq::<CourseAttachmentView>::empty());
            assert(u@ == hotmart_ui(l@));
            assert(lessons@.take(i + 1) == lessons@.take(i as int).push(lessons@[i as int]));
            assert(lessons_ui_view(ui@) =~= u0.push(u@));
            assert(course_lessons_view(lessons@.take(i + 1)).map_values(|l: CourseLessonView| hotmart_ui(l))
                =~= course_lessons_view(lessons@.take(i as int)).map_values(|l: CourseLessonView| hotmart_ui(l)).push(u@));
        }
        i += 1;
    }
    assert(lessons@.take(lessons@.len() as int) == lessons@);
    CourseTree { platform: str_to_string("hotmart"), course_name: str_to_string("Curso Hotmart"), lessons: ui }
}

// ---------------------------------------------------------------------------
// Downloading a selection
// ---------------------------------------------------------------------------

/// Platforms whose courses can be listed and downloaded.
#[derive(Debug, Clone, Copy, PartialEq, Eq, Structural)]
pub enum CoursePlatform {
    Memberkit,
    Hotmart,
}

/// The answer for a link of no supported course.
pub open spec fn unsupported_course_message() -> Seq<char> {
    "Este link não é de um curso suportado (MemberKit/Hotmart)."@
}

/// Which platform a course link's host belongs to: MemberKit first, then
/// Hotmart; any other host is refused.
pub open spec fn platform_of_host(host: Seq<char>) -> Result<CoursePlatform, Seq<char>> {
    if contains(host, "memberkit.com.br"@) {
        Ok(CoursePlatform::Memberkit)
    } else if contains(host, "hotmart.com"@) {
        Ok(CoursePlatform::Hotmart)
    } else {
        Err(unsupported_course_message())
    }
}

/// `list_course_tree`'s choice of platform by the link's host.
pub fn course_platform(host: &str) -> (r: Result<CoursePlatform, String>)
    ensures
        match (r, platform_of_host(host@)) {
            (Ok(p), Ok(q)) => p == q,
            (Err(e), Err(f)) => e@ == f,
            _ => false,
        },
{
    let hv = chars_of(host);
    if contains_str(&hv, "memberkit.com.br") {
        Ok(CoursePlatform::Memberkit)
    } else if contains_str(&hv, "hotmart.com") {
        Ok(CoursePlatform::Hotmart)
    } else {
        Err(str_to_string("Este link não é de um curso suportado (MemberKit/Hotmart)."))
    }
}

/// How many lessons are downloaded at once: one for Hotmart (its browser
/// profile is a single lock), otherwise the request (five by default)
/// held between one and eight.
pub open spec fn parallelism(platform: Seq<char>, parallel: Option<usize>) -> usize {
    if platform == "hotmart"@ {
        1
    } else {
        let p = match parallel {
            Some(n) => n,
            None => 5,
        };
        if p < 1 {
            1
        } else if p > 8 {
            8
        } else {
            p
        }
    }
}

/// Number of lessons `download_course` works on at once.
pub fn course_parallelism(platform: &str, parallel: Option<usize>) -> (r: usize)
    ensures
        r == parallelism(platform@, parallel),
        1 <= r <= 8,
{
    let pv = chars_of(platform);
    let hv = chars_of("hotmart");
    if eq_chars(&pv, &hv) {
        1
    } else {
        let p = match parallel {
            Some(n) => n,
            None => 5,
        };
        if p < 1 {
            1
        } else if p > 8 {
            8
        } else {
            p
        }
    }
}

/// Size above which a video already on disk counts as downloaded.
pub const MIN_COMPLETE_VIDEO_BYTES: u64 = 100_000;

/// What to do with one selected lesson once its attachments are handled.
#[derive(Debug, Clone, Copy, PartialEq, Eq, Structural)]
pub enum LessonPlan {
    /// No video: counted as done.
    NoVideo,
    /// The video file is already there: counted as skipped.
    AlreadyThere,
    /// Resolve the stream and download it.
    Download,
}

impl LessonPlan {
    /// The status reported for the lesson.
    pub open spec fn status_text(self) -> Seq<char> {
        match self {
            LessonPlan::NoVideo => "done"@,
            LessonPlan::AlreadyThere => "skipped"@,
            LessonPlan::Download => "downloading"@,
        }
    }

    /// Status reported for the lesson.
    pub fn status(&self) -> (r: String)
        ensures
            r@ == self.status_text(),
    {
        match self {
            LessonPlan::NoVideo => str_to_string("done"),
            LessonPlan::AlreadyThere => str_to_string("skipped"),
            LessonPlan::Download => str_to_string("downloading"),
        }
    }
}

/// The plan for a lesson: a lesson without video is done; a video file
/// that exists with more than the minimum size is skipped; else download.
pub open spec fn plan_of(has_video: bool, file_len: Option<u64>) -> LessonPlan {
    if !has_video {
        LessonPlan::NoVideo
    } else if file_len matches Some(n) && n > MIN_COMPLETE_VIDEO_BYTES {
        LessonPlan::AlreadyThere
    } else {
        LessonPlan::Download
    }
}

/// `download_course`'s decision for one lesson; `file_len` is the size of
/// the video file when it exists.
pub fn lesson_plan(has_video: bool, file_len: Option<u64>) -> (r: LessonPlan)
    ensures
        r == plan_of(has_video, file_len),
{
    if !has_video {
        LessonPlan::NoVideo
    } else {
        match file_len {
            Some(n) => if n > MIN_COMPLETE_VIDEO_BYTES {
                LessonPlan::AlreadyThere
            } else {
                LessonPlan::Download
            },
            None => LessonPlan::Download,
        }
    }
}

/// Where a lesson's video is resolved from, fresh at download time.
#[derive(Debug)]
pub enum VideoSource {
    /// A Vimeo video, with the lesson page as referer.
    Vimeo { id: String, referer: Option<String> },
    /// A Hotmart lesson page, whose player is sniffed.
    Page { content_url: String },
}

/// The source of a lesson's video on the given platform, or the reason why
/// there is none: a MemberKit lesson needs its Vimeo id, any other its
/// content address.
pub fn video_source(platform: &str, lesson: &CourseLessonUI) -> (r: Result<VideoSource, String>)
    ensures
        platform@ == "memberkit"@ ==> match r {
            Ok(VideoSource::Vimeo { id, referer }) => lesson@.vimeo_id == Some(id@) && opt_view(referer)
                == lesson@.content_url,
            Ok(VideoSource::Page { .. }) => false,
            Err(e) => lesson@.vimeo_id is None && e@ == "sem vimeo"@,
        },
        platform@ != "memberkit"@ ==> match r {
            Ok(VideoSource::Page { content_url }) => lesson@.content_url == Some(content_url@),
            Ok(VideoSource::Vimeo { .. }) => false,
            Err(e) => lesson@.content_url is None && e@ == "sem content_url"@,
        },
{
    let pv = chars_of(platform);
    let mv = chars_of("memberkit");
    if eq_chars(&pv, &mv) {
        match &lesson.vimeo_id {
            Some(id) => Ok(VideoSource::Vimeo { id: id.clone(), referer: copy_opt(&lesson.content_url) }),
            None => Err(str_to_string("sem vimeo")),
        }
    } else {
        match &lesson.content_url {
            Some(u) => Ok(VideoSource::Page { content_url: u.clone() }),
            None => Err(str_to_string("sem content_url")),
        }
    }
}

/// The stream that is downloaded: the best one, or the last when the best
/// index is past the end (`min(best, len - 1)`, saturating).
pub fn chosen_stream_index(best_quality_index: usize, n_streams: usize) -> (r: usize)
    ensures
        r == (if n_streams == 0 {
            0
        } else if best_quality_index < n_streams {
            best_quality_index as int
        } else {
            n_streams - 1
        }),
{
    let last = if n_streams == 0 { 0 } else { n_streams - 1 };
    if best_quality_index < last { best_quality_index } else { last }
}

/// The flag that stops a course download in progress.
#[derive(Debug)]
pub struct CourseState {
    pub cancel: bool,
}

impl Default for CourseState {
    fn default() -> (r: Self)
        ensures
            !r.cancel,
    {
        CourseState { cancel: false }
    }
}

impl CourseState {
    /// Asks the running course download to stop (`cancel_course`).
    pub fn request_cancel(&mut self)
        ensures
            final(self).cancel,
    {
        self.cancel = true;
    }

    /// Clears the flag when a new course download starts.
    pub fn reset(&mut self)
        ensures
            !final(self).cancel,
    {
        self.cancel = false;
    }
}

} // verus!
