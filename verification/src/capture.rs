//! Capture runs (`--screenshot`): the offscreen size (`AQ_RES=WxH`), the
//! optional image sequence (`AQ_SEQ=from,count,every`) and what each frame
//! of the run does.
use vstd::prelude::*;
use crate::config::parse_u32;
use crate::config::parse_u32_bytes;

verus! {

// ---------------------------------------------------------------------------
// Splitting on a separator byte
// ---------------------------------------------------------------------------

/// The pieces of `b` between the bytes equal to `sep` (one more piece than
/// separators; pieces may be empty).
pub open spec fn pieces(b: Seq<u8>, sep: u8) -> Seq<Seq<u8>>
    decreases b.len(),
{
    if b.len() == 0 {
        seq![seq![]]
    } else {
        let f = pieces(b.drop_last(), sep);
        if b.last() == sep {
            f.push(seq![])
        } else {
            f.update(f.len() - 1, f.last().push(b.last()))
        }
    }
}

proof fn lemma_pieces_nonempty(b: Seq<u8>, sep: u8)
    ensures
        pieces(b, sep).len() >= 1,
    decreases b.len(),
{
    if b.len() > 0 {
        lemma_pieces_nonempty(b.drop_last(), sep);
    }
}

/// The numbers among the pieces, in order (pieces that are no `u32` are
/// skipped).
pub open spec fn numbers(fs: Seq<Seq<u8>>) -> Seq<u32>
    decreases fs.len(),
{
    if fs.len() == 0 {
        seq![]
    } else {
        match parse_u32(fs.last()) {
            Some(v) => numbers(fs.drop_last()).push(v),
            None => numbers(fs.drop_last()),
        }
    }
}

/// The numbers of a comma-separated list.
pub fn comma_numbers(b: &[u8]) -> (r: Vec<u32>)
    ensures
        r@ == numbers(pieces(b@, 44)),
{
    let mut vals: Vec<u32> = Vec::new();
    let mut cur: Vec<u8> = Vec::new();
    let mut i: usize = 0;
    while i < b.len()
        invariant
            i <= b@.len(),
            pieces(b@.subrange(0, i as int), 44).len() >= 1,
            cur@ == pieces(b@.subrange(0, i as int), 44).last(),
            vals@ == numbers(pieces(b@.subrange(0, i as int), 44).drop_last()),
        decreases b@.len() - i,
    {
        let ghost p = b@.subrange(0, i as int);
        let ghost q = b@.subrange(0, i + 1);
        assert(q.drop_last() =~= p);
        proof {
            lemma_pieces_nonempty(p, 44);
        }
        if b[i] == 44 {
            let ghost fp = pieces(p, 44);
            match parse_u32_bytes(cur.as_slice()) {
                Some(v) => vals.push(v),
                None => {},
            }
            cur = Vec::new();
            assert(pieces(q, 44).drop_last() =~= fp);
            assert(fp.drop_last().push(fp.last()) =~= fp);
        } else {
            let ghost fp = pieces(p, 44);
            cur.push(b[i]);
            assert(pieces(q, 44).drop_last() =~= fp.drop_last());
        }
        i = i + 1;
    }
    assert(b@.subrange(0, b@.len() as int) =~= b@);
    let ghost fs = pieces(b@, 44);
    assert(fs.drop_last().push(fs.last()) =~= fs);
    match parse_u32_bytes(cur.as_slice()) {
        Some(v) => vals.push(v),
        None => {},
    }
    vals
}

// ---------------------------------------------------------------------------
// AQ_SEQ and AQ_RES
// ---------------------------------------------------------------------------

/// An image sequence: first frame, number of images, frames between two.
#[derive(Clone, Copy, PartialEq, Eq, Debug, Structural)]
pub struct Sequence {
    pub from: u32,
    pub count: u32,
    pub every: u32,
}

/// `from,count,every`: exactly three numbers among the comma-separated
/// pieces, the last one positive.
pub open spec fn spec_sequence(b: Seq<u8>) -> Option<Sequence> {
    let v = numbers(pieces(b, 44));
    if v.len() == 3 && v[2] > 0 {
        Some(Sequence { from: v[0], count: v[1], every: v[2] })
    } else {
        None
    }
}

pub fn parse_sequence(b: &[u8]) -> (r: Option<Sequence>)
    ensures
        r == spec_sequence(b@),
{
    let v = comma_numbers(b);
    if v.len() == 3 && v[2] > 0 {
        Some(Sequence { from: v[0], count: v[1], every: v[2] })
    } else {
        None
    }
}

/// The image of the sequence that frame `frame` takes, if it takes one.
pub open spec fn spec_sequence_image(s: Sequence, frame: u32) -> Option<u32> {
    if frame >= s.from && (frame - s.from) % (s.every as int) == 0 && (frame - s.from) / (s.every as int)
        < s.count {
        Some(((frame - s.from) / (s.every as int)) as u32)
    } else {
        None
    }
}

pub fn sequence_image(s: Sequence, frame: u32) -> (r: Option<u32>)
    requires
        s.every > 0,
    ensures
        r == spec_sequence_image(s, frame),
{
    if frame >= s.from && (frame - s.from) % s.every == 0 && (frame - s.from) / s.every < s.count {
        Some((frame - s.from) / s.every)
    } else {
        None
    }
}

/// The images of a sequence are taken at `from`, `from + every`, ... : frame
/// `frame` takes image `k` exactly when it is `from + k * every` with `k`
/// below the count.
pub proof fn lemma_sequence_frames(s: Sequence, frame: u32, k: u32)
    requires
        s.every > 0,
    ensures
        spec_sequence_image(s, frame) == Some(k) <==> (frame == s.from + k * s.every && k < s.count),
{
    let e = s.every as int;
    if frame == s.from + k * s.every && k < s.count {
        vstd::arithmetic::div_mod::lemma_fundamental_div_mod_converse(frame - s.from, e, k as int, 0);
    }
    if spec_sequence_image(s, frame) == Some(k) {
        vstd::arithmetic::div_mod::lemma_fundamental_div_mod(frame - s.from, e);
        assert(frame - s.from == e * ((frame - s.from) / e));
        assert(k as int == (frame - s.from) / e);
        assert(frame == s.from + k * s.every) by (nonlinear_arith)
            requires
                frame - s.from == e * ((frame - s.from) / e),
                k as int == (frame - s.from) / e,
                e == s.every,
        ;
    }
}

/// The first position of byte `c` in `b`, if it occurs.
pub open spec fn first_of(b: Seq<u8>, c: u8) -> Option<int> {
    if exists|i: int| 0 <= i < b.len() && b[i] == c {
        Some(choose|i: int| 0 <= i < b.len() && b[i] == c && forall|j: int| 0 <= j < i ==> b[j] != c)
    } else {
        None
    }
}

/// `WxH`: two numbers on each side of the first `x`.
pub open spec fn spec_resolution(b: Seq<u8>) -> Option<(u32, u32)> {
    match first_of(b, 120) {
        Some(k) => match (parse_u32(b.subrange(0, k)), parse_u32(b.subrange(k + 1, b.len() as int))) {
            (Some(w), Some(h)) => Some((w, h)),
            _ => None,
        },
        None => None,
    }
}

pub fn parse_resolution(b: &[u8]) -> (r: Option<(u32, u32)>)
    ensures
        r == spec_resolution(b@),
{
    let mut k: usize = 0;
    while k < b.len() && b[k] != 120
        invariant
            k <= b@.len(),
            forall|j: int| 0 <= j < k ==> b@[j] != 120,
        decreases b@.len() - k,
    {
        k = k + 1;
    }
    if k == b.len() {
        return None;
    }
    proof {
        let i = choose|i: int| 0 <= i < b@.len() && b@[i] == 120 && forall|j: int| 0 <= j < i ==> b@[j] != 120;
        if i < k {
        } else if i > k {
            assert(b@[k as int] == 120);
        }
        assert(i == k);
    }
    let w = parse_u32_bytes(vstd::slice::slice_subrange(b, 0, k));
    let h = parse_u32_bytes(vstd::slice::slice_subrange(b, k + 1, b.len()));
    match (w, h) {
        (Some(w), Some(h)) => Some((w, h)),
        _ => None,
    }
}

/// The offscreen size of a capture: `AQ_RES` where it reads as `WxH`, else
/// 1920x1200.
pub open spec fn spec_capture_size(var: Option<Seq<u8>>) -> (u32, u32) {
    match var {
        Some(b) => match spec_resolution(b) {
            Some(r) => r,
            None => (1920, 1200),
        },
        None => (1920, 1200),
    }
}

pub fn capture_size(var: Option<&[u8]>) -> (r: (u32, u32))
    ensures
        r == spec_capture_size(
            match var {
                Some(b) => Some(b@),
                None => None,
            },
        ),
{
    match var {
        Some(b) => match parse_resolution(b) {
            Some(r) => r,
            None => (1920, 1200),
        },
        None => (1920, 1200),
    }
}

// ---------------------------------------------------------------------------
// A capture run, frame by frame
// ---------------------------------------------------------------------------

/// What frame `frame` of a capture run of `frames` frames does.
#[derive(Clone, Copy, PartialEq, Eq, Debug, Structural)]
pub struct CaptureFrame {
    /// Start timing the last 60 frames.
    pub start_timer: bool,
    /// The last frame: report the timing and take the screenshot.
    pub shoot: bool,
    /// The image of the sequence to save, if any.
    pub image: Option<u32>,
    /// Past the last frame: exit as soon as the file is there.
    pub may_exit: bool,
    /// The file never came: give up with an error.
    pub give_up: bool,
}

pub open spec fn spec_capture_frame(frame: u32, frames: u32, seq: Option<Sequence>) -> CaptureFrame {
    CaptureFrame {
        start_timer: frame == if frames >= 60 {
            frames - 60
        } else {
            0
        },
        shoot: frame == frames,
        image: match seq {
            Some(s) => spec_sequence_image(s, frame),
            None => None,
        },
        may_exit: frame > frames + 5,
        give_up: frame > frames + 600,
    }
}

/// The plan of frame `frame` (counted from 1).
pub fn capture_frame(frame: u32, frames: u32, seq: Option<Sequence>) -> (c: CaptureFrame)
    requires
        frames <= u32::MAX - 600,
        match seq {
            Some(s) => s.every > 0,
            None => true,
        },
    ensures
        c == spec_capture_frame(frame, frames, seq),
{
    CaptureFrame {
        start_timer: frame == frames.saturating_sub(60),
        shoot: frame == frames,
        image: match seq {
            Some(s) => sequence_image(s, frame),
            None => None,
        },
        may_exit: frame > frames + 5,
        give_up: frame > frames + 600,
    }
}

/// A capture run of `frames` frames: the timer starts 60 frames before the
/// end (at once for a shorter run), the shot is taken on the last frame
/// only, the run may end five frames after it and gives up 600 frames
/// after it.
pub proof fn lemma_capture_run(frame: u32, frames: u32)
    requires
        frames <= u32::MAX - 600,
    ensures
        spec_capture_frame(frame, frames, None).shoot <==> frame == frames,
        frames >= 60 ==> (spec_capture_frame(frame, frames, None).start_timer <==> frame + 60 == frames),
        frames < 60 ==> (spec_capture_frame(frame, frames, None).start_timer <==> frame == 0),
        spec_capture_frame(frame, frames, None).may_exit <==> frame >= frames + 6,
        spec_capture_frame(frame, frames, None).give_up <==> frame >= frames + 601,
        spec_capture_frame(frame, frames, None).give_up ==> spec_capture_frame(frame, frames, None).may_exit,
        spec_capture_frame(frame, frames, None).image is None,
{
}

} // verus!
