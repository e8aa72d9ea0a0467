//! Container inspection for the remux step: top-level ISO BMFF (MP4) boxes,
//! fMP4 and MPEG-TS detection, and the names of segment files.
use vstd::prelude::*;
use vstd::utf8::{decode_utf8, valid_utf8};
use crate::text::{chars_of, decimal, decimal_exec, push_str, string_of, utf8_to_string};

verus! {

/// The `std::path::PathBuf` type, carried opaque in results.
#[verifier::external_type_specification]
#[verifier::external_body]
pub struct ExPathBuf(std::path::PathBuf);

/// What a concatenation produced.
#[derive(Clone, Debug)]
pub enum OutputFormat {
    /// Concatenated `.ts`.
    TransportStream,
    /// fMP4: init segment followed by the media segments.
    FragmentedMp4,
}

/// Result of concatenating segments into one file.
pub struct RemuxResult {
    pub output_path: std::path::PathBuf,
    pub format: OutputFormat,
    pub size_bytes: u64,
}

/// One top-level box: its four-character type, where it starts, its size.
#[derive(Clone, Debug)]
pub struct Mp4Box {
    pub box_type: String,
    pub offset: usize,
    pub size: usize,
}

pub struct Mp4BoxView {
    pub box_type: Seq<char>,
    pub offset: usize,
    pub size: usize,
}

impl View for Mp4Box {
    type V = Mp4BoxView;

    open spec fn view(&self) -> Mp4BoxView {
        Mp4BoxView { box_type: self.box_type@, offset: self.offset, size: self.size }
    }
}

pub open spec fn boxes_view(v: Seq<Mp4Box>) -> Seq<Mp4BoxView> {
    v.map_values(|b: Mp4Box| b@)
}

/// Big-endian `u32` at `data[i..i + 4]`.
pub open spec fn be32(data: Seq<u8>, i: int) -> nat {
    data[i] as nat * 16777216 + data[i + 1] as nat * 65536 + data[i + 2] as nat * 256 + data[i + 3] as nat
}

/// Big-endian `u64` at `data[i..i + 8]`.
pub open spec fn be64(data: Seq<u8>, i: int) -> nat {
    be32(data, i) * 4294967296 + be32(data, i + 4)
}

/// The box type text: the four bytes as UTF-8, or `"????"` when they are not.
pub open spec fn box_type_text(b: Seq<u8>) -> Seq<char> {
    if valid_utf8(b) {
        decode_utf8(b)
    } else {
        "????"@
    }
}

/// The size a box header at `offset` declares: `0` runs to the end, `1`
/// reads the 64-bit size that follows (when it fits in the data).
pub open spec fn box_size(data: Seq<u8>, offset: int) -> int {
    let size = be32(data, offset);
    if size == 0 {
        data.len() - offset
    } else if size == 1 && offset + 16 <= data.len() {
        (#[verifier::truncate] ((be64(data, offset + 8) as u64) as usize)) as int
    } else {
        size as int
    }
}

/// The top-level boxes from `offset` on, stopping at the first header that
/// is cut off, too small, or runs past the end of `data`.
pub open spec fn boxes_from(data: Seq<u8>, offset: int) -> Seq<Mp4BoxView>
    decreases data.len() - offset,
{
    if offset < 0 || offset + 8 > data.len() {
        seq![]
    } else {
        let size = box_size(data, offset);
        if size < 8 || size > data.len() - offset {
            seq![]
        } else {
            seq![
                Mp4BoxView {
                    box_type: box_type_text(data.subrange(offset + 4, offset + 8)),
                    offset: offset as usize,
                    size: size as usize,
                },
            ] + boxes_from(data, offset + size)
        }
    }
}

fn be32_exec(data: &[u8], i: usize) -> (r: u64)
    requires
        i + 4 <= data@.len(),
    ensures
        r as nat == be32(data@, i as int),
        r <= u32::MAX,
{
    (data[i] as u64) * 16777216 + (data[i + 1] as u64) * 65536 + (data[i + 2] as u64) * 256 + (data[i + 3] as u64)
}

/// `parse_mp4_boxes(data)`: the top-level boxes of an MP4 buffer.
pub fn parse_mp4_boxes(data: &[u8]) -> (r: Vec<Mp4Box>)
    ensures
        boxes_view(r@) == boxes_from(data@, 0),
{
    let mut boxes: Vec<Mp4Box> = Vec::new();
    let mut offset: usize = 0;
    let n = data.len();
    proof {
        assert(boxes_view(boxes@) + boxes_from(data@, 0) == boxes_from(data@, 0));
    }
    let mut stop = false;
    while !stop && n >= 8 && offset <= n - 8
        invariant
            n == data@.len(),
            offset <= n,
            boxes_from(data@, 0) == boxes_view(boxes@) + boxes_from(data@, offset as int),
            stop ==> boxes_from(data@, offset as int) == Seq::<Mp4BoxView>::empty(),
        decreases n - offset + (if stop { 0int } else { 1int }),
    {
        let size = be32_exec(data, offset);
        let actual: usize = if size == 0 {
            n - offset
        } else if size == 1 && n >= 16 && offset <= n - 16 {
            let hi = be32_exec(data, offset + 8);
            let lo = be32_exec(data, offset + 12);
            assert(hi * 4294967296 + lo <= u64::MAX) by (nonlinear_arith)
                requires
                    hi <= u32::MAX,
                    lo <= u32::MAX,
            ;
            #[verifier::truncate] ((hi * 4294967296 + lo) as usize)
        } else {
            size as usize
        };
        assert(actual as int == box_size(data@, offset as int));
        if actual < 8 || actual > n - offset {
            stop = true;
            continue;
        }
        let raw = &data[offset + 4..offset + 8];
        assert(raw@ == data@.subrange(offset + 4, offset + 8));
        let box_type = match utf8_to_string(raw) {
            Some(t) => t,
            None => {
                let q = chars_of("????");
                string_of(&q)
            },
        };
        let b = Mp4Box { box_type, offset, size: actual };
        let ghost before = boxes_view(boxes@);
        boxes.push(b);
        proof {
            assert(boxes_view(boxes@) == before.push(b@));
            assert(boxes_from(data@, offset as int) == seq![b@] + boxes_from(data@, offset + actual));
            assert(before + (seq![b@] + boxes_from(data@, offset + actual)) == before.push(b@) + boxes_from(
                data@,
                offset + actual,
            ));
        }
        offset = offset + actual;
    }
    proof {
        if !stop {
            assert(boxes_from(data@, offset as int) == Seq::<Mp4BoxView>::empty());
        }
        assert(boxes_view(boxes@) + Seq::<Mp4BoxView>::empty() == boxes_view(boxes@));
    }
    boxes
}

/// The boxes read from `offset` on lie end to end inside the data, the
/// first at `offset`, each at least a header long.
pub proof fn lemma_boxes_from_tile(data: Seq<u8>, offset: int)
    requires
        0 <= offset,
        data.len() <= usize::MAX,
    ensures
        boxes_from(data, offset).len() > 0 ==> boxes_from(data, offset)[0].offset == offset,
        forall|k: int| 0 <= k < boxes_from(data, offset).len() ==> 8 <= (#[trigger] boxes_from(data, offset)[k]).size
            && boxes_from(data, offset)[k].offset + boxes_from(data, offset)[k].size <= data.len(),
        forall|k: int| 0 <= k < boxes_from(data, offset).len() - 1 ==> (#[trigger] boxes_from(data, offset)[k + 1]).offset
            == boxes_from(data, offset)[k].offset + boxes_from(data, offset)[k].size,
    decreases data.len() - offset,
{
    if offset + 8 <= data.len() {
        let size = box_size(data, offset);
        if 8 <= size <= data.len() - offset {
            lemma_boxes_from_tile(data, offset + size);
            let bs = boxes_from(data, offset);
            let rest = boxes_from(data, offset + size);
            assert(bs == seq![bs[0]] + rest);
            assert forall|k: int| 0 <= k < bs.len() implies 8 <= (#[trigger] bs[k]).size && bs[k].offset + bs[k].size
                <= data.len() by {
                if k > 0 {
                    assert(bs[k] == rest[k - 1]);
                }
            }
            assert forall|k: int| 0 <= k < bs.len() - 1 implies (#[trigger] bs[k + 1]).offset == bs[k].offset
                + bs[k].size by {
                assert(bs[k + 1] == rest[k]);
                if k > 0 {
                    assert(bs[k] == rest[k - 1]);
                    let j = k - 1;
                    assert(rest[j + 1].offset == rest[j].offset + rest[j].size);
                } else {
                    assert(bs[0].offset == offset);
                    assert(bs[0].size == size);
                    assert(rest[0].offset == offset + size);
                }
            }
        }
    }
}

/// Law: the top-level boxes that `parse_mp4_boxes` lists cover the start of
/// the buffer without gap or overlap: the first starts at 0, each starts
/// where the previous ends, and none runs past the end.
pub proof fn lemma_parsed_boxes_tile(data: Seq<u8>)
    requires
        data.len() <= usize::MAX,
    ensures
        boxes_from(data, 0).len() > 0 ==> boxes_from(data, 0)[0].offset == 0,
        forall|k: int| 0 <= k < boxes_from(data, 0).len() ==> 8 <= (#[trigger] boxes_from(data, 0)[k]).size
            && boxes_from(data, 0)[k].offset + boxes_from(data, 0)[k].size <= data.len(),
        forall|k: int| 0 <= k < boxes_from(data, 0).len() - 1 ==> (#[trigger] boxes_from(data, 0)[k + 1]).offset
            == boxes_from(data, 0)[k].offset + boxes_from(data, 0)[k].size,
{
    lemma_boxes_from_tile(data, 0);
}

/// Some box in `bs` has type `t`.
pub open spec fn has_box(bs: Seq<Mp4BoxView>, t: Seq<char>) -> bool {
    exists|i: int| 0 <= i < bs.len() && #[trigger] bs[i].box_type == t
}

fn has_box_exec(bs: &Vec<Mp4Box>, t: &str) -> (r: bool)
    ensures
        r == has_box(boxes_view(bs@), t@),
{
    let tv = chars_of(t);
    let ts = string_of(&tv);
    let mut i: usize = 0;
    while i < bs.len()
        invariant
            i <= bs@.len(),
            ts@ == t@,
            forall|k: int| 0 <= k < i ==> boxes_view(bs@)[k].box_type != t@,
        decreases bs@.len() - i,
    {
        if bs[i].box_type == ts {
            assert(boxes_view(bs@)[i as int].box_type == t@);
            return true;
        }
        i += 1;
    }
    false
}

/// `is_valid_fmp4_init(data)`: the top-level boxes include `ftyp` and `moov`.
pub fn is_valid_fmp4_init(data: &[u8]) -> (r: bool)
    ensures
        r == (has_box(boxes_from(data@, 0), "ftyp"@) && has_box(boxes_from(data@, 0), "moov"@)),
{
    let boxes = parse_mp4_boxes(data);
    let has_ftyp = has_box_exec(&boxes, "ftyp");
    let has_moov = has_box_exec(&boxes, "moov");
    has_ftyp && has_moov
}

/// `is_fmp4_segment(data)`: an fMP4 media segment, whose top-level boxes
/// include both `moof` and `mdat`.
pub fn is_fmp4_segment(data: &[u8]) -> (r: bool)
    ensures
        r == (has_box(boxes_from(data@, 0), "moof"@) && has_box(boxes_from(data@, 0), "mdat"@)),
{
    let boxes = parse_mp4_boxes(data);
    let has_moof = has_box_exec(&boxes, "moof");
    let has_mdat = has_box_exec(&boxes, "mdat");
    has_moof && has_mdat
}

/// `is_ts_segment(data)`: at least one 188-byte packet, and the MPEG-TS sync
/// byte `0x47` at the start or at the second packet.
pub fn is_ts_segment(data: &[u8]) -> (r: bool)
    ensures
        r == (data@.len() >= 188 && (data@[0] == 0x47 || (data@.len() >= 376 && data@[188] == 0x47))),
{
    if data.len() < 188 {
        return false;
    }
    data[0] == 0x47 || (data.len() >= 376 && data[188] == 0x47)
}

/// `"000000"`-padded decimal of `n` (`format!("{:06}", n)`).
pub open spec fn zero_padded6(n: nat) -> Seq<char> {
    let d = decimal(n);
    if d.len() < 6 {
        Seq::new((6 - d.len()) as nat, |i: int| '0') + d
    } else {
        d
    }
}

/// File name of media segment `i` in the segments folder: `seg_{i:06}.ts`.
pub open spec fn segment_file(i: nat) -> Seq<char> {
    "seg_"@ + zero_padded6(i) + ".ts"@
}

/// `format!("seg_{:06}.ts", i)`.
pub fn segment_file_name(i: u64) -> (r: String)
    ensures
        r@ == segment_file(i as nat),
{
    let d = decimal_exec(i);
    let mut out: Vec<char> = Vec::new();
    push_str(&mut out, "seg_");
    let ghost head = out@;
    let mut pad: usize = 0;
    let want: usize = if d.len() < 6 { 6 - d.len() } else { 0 };
    while pad < want
        invariant
            pad <= want,
            want == (if d@.len() < 6 { 6 - d@.len() } else { 0int }),
            out@ == head + Seq::new(pad as nat, |k: int| '0'),
        decreases want - pad,
    {
        out.push('0');
        assert(Seq::new((pad + 1) as nat, |k: int| '0') =~= Seq::new(pad as nat, |k: int| '0').push('0'));
        pad += 1;
    }
    let ghost mid = out@;
    let mut k: usize = 0;
    while k < d.len()
        invariant
            k <= d@.len(),
            out@ == mid + d@.take(k as int),
        decreases d@.len() - k,
    {
        out.push(d[k]);
        assert(d@.take(k + 1) == d@.take(k as int).push(d@[k as int]));
        k += 1;
    }
    assert(d@.take(d@.len() as int) == d@);
    push_str(&mut out, ".ts");
    proof {
        if d@.len() < 6 {
            assert(out@ =~= "seg_"@ + (Seq::new((6 - d@.len()) as nat, |i: int| '0') + d@) + ".ts"@);
        } else {
            assert(Seq::new(0, |k: int| '0') + d@ =~= d@);
            assert(out@ =~= "seg_"@ + d@ + ".ts"@);
        }
    }
    string_of(&out)
}

/// The files joined into the output, in order: the media segments, after
/// the init segment for fMP4.
pub open spec fn concat_names(segment_count: nat, fmp4: bool) -> Seq<Seq<char>> {
    let segs = Seq::new(segment_count, |i: int| segment_file(i as nat));
    if fmp4 {
        seq!["init.mp4"@] + segs
    } else {
        segs
    }
}

/// `concat_ts_segments` / `concat_fmp4_segments`: the names, in the
/// segments folder, of the files to append to the output (those missing on
/// disk are skipped by the caller).
pub fn concat_file_names(segment_count: u64, format: &OutputFormat) -> (r: Vec<String>)
    ensures
        r@.map_values(|s: String| s@) == concat_names(
            segment_count as nat,
            format is FragmentedMp4,
        ),
{
    let mut r: Vec<String> = Vec::new();
    let fmp4 = match format {
        OutputFormat::FragmentedMp4 => true,
        OutputFormat::TransportStream => false,
    };
    if fmp4 {
        let mut v: Vec<char> = Vec::new();
        push_str(&mut v, "init.mp4");
        r.push(string_of(&v));
    }
    let ghost head = r@.map_values(|s: String| s@);
    let mut i: u64 = 0;
    while i < segment_count
        invariant
            i <= segment_count,
            head == (if fmp4 { seq!["init.mp4"@] } else { Seq::<Seq<char>>::empty() }),
            r@.map_values(|s: String| s@) == head + Seq::new(i as nat, |k: int| segment_file(k as nat)),
        decreases segment_count - i,
    {
        let ghost r0 = r@.map_values(|s: String| s@);
        let name = segment_file_name(i);
        r.push(name);
        proof {
            assert(r@.map_values(|s: String| s@) =~= r0.push(name@));
            assert(Seq::new((i + 1) as nat, |k: int| segment_file(k as nat)) =~= Seq::new(
                i as nat,
                |k: int| segment_file(k as nat),
            ).push(segment_file(i as nat)));
        }
        i += 1;
    }
    proof {
        if !fmp4 {
            assert(head + Seq::new(segment_count as nat, |k: int| segment_file(k as nat)) =~= Seq::new(
                segment_count as nat,
                |k: int| segment_file(k as nat),
            ));
        }
    }
    r
}

} // verus!
