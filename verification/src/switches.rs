//! Debug and profiling switches read from the environment: `AQ_DISABLE`
//! (features turned off when its value mentions them) and `AQ_HIDE`
//! (entities hidden when their name contains one of its comma-separated
//! strings).
use vstd::prelude::*;
use crate::capture::pieces;

verus! {

/// `needle` occurs in `hay` at position `i`.
pub open spec fn occurs_at(hay: Seq<u8>, needle: Seq<u8>, i: int) -> bool {
    0 <= i && i + needle.len() <= hay.len() && hay.subrange(i, i + needle.len()) == needle
}

/// `needle` occurs somewhere in `hay`.
pub open spec fn occurs(hay: Seq<u8>, needle: Seq<u8>) -> bool {
    exists|i: int| occurs_at(hay, needle, i)
}

fn occurs_here(hay: &[u8], needle: &[u8], i: usize) -> (r: bool)
    requires
        i + needle@.len() <= hay@.len(),
    ensures
        r == occurs_at(hay@, needle@, i as int),
{
    let n = hay.len();
    let mut k: usize = 0;
    while k < needle.len()
        invariant
            i + needle@.len() <= hay@.len(),
            n == hay@.len(),
            k <= needle@.len(),
            forall|j: int| 0 <= j < k ==> hay@[i + j] == needle@[j],
        decreases needle@.len() - k,
    {
        if hay[i + k] != needle[k] {
            assert(hay@.subrange(i as int, i + needle@.len())[k as int] != needle@[k as int]);
            return false;
        }
        k = k + 1;
    }
    assert(hay@.subrange(i as int, i + needle@.len()) =~= needle@);
    true
}

/// Whether `needle` occurs in `hay` (the empty string occurs everywhere).
pub fn contains(hay: &[u8], needle: &[u8]) -> (r: bool)
    ensures
        r == occurs(hay@, needle@),
{
    if needle.len() > hay.len() {
        assert(!occurs(hay@, needle@));
        return false;
    }
    let last = hay.len() - needle.len();
    let mut i: usize = 0;
    while i < last
        invariant
            last == hay@.len() - needle@.len(),
            i <= last,
            forall|j: int| 0 <= j < i ==> !occurs_at(hay@, needle@, j),
        decreases last - i,
    {
        if occurs_here(hay, needle, i) {
            return true;
        }
        i = i + 1;
    }
    if occurs_here(hay, needle, last) {
        return true;
    }
    assert forall|j: int| !occurs_at(hay@, needle@, j) by {
        if 0 <= j && j + needle@.len() <= hay@.len() {
            assert(j <= last);
        }
    }
    false
}

/// `AQ_HIDE`: a name is hidden when one of the non-empty comma-separated
/// strings of the list occurs in it.
pub open spec fn spec_hidden_by(name: Seq<u8>, list: Seq<u8>) -> bool {
    exists|k: int|
        0 <= k < pieces(list, 44).len() && #[trigger] pieces(list, 44)[k].len() > 0 && occurs(
            name,
            pieces(list, 44)[k],
        )
}

pub fn hidden_by(name: &[u8], list: &[u8]) -> (r: bool)
    ensures
        r == spec_hidden_by(name@, list@),
{
    let ghost fs = pieces(list@, 44);
    let mut cur: Vec<u8> = Vec::new();
    let mut found = false;
    let mut i: usize = 0;
    while i < list.len()
        invariant
            i <= list@.len(),
            fs == pieces(list@, 44),
            pieces(list@.subrange(0, i as int), 44).len() >= 1,
            cur@ == pieces(list@.subrange(0, i as int), 44).last(),
            found == exists|k: int|
                0 <= k < pieces(list@.subrange(0, i as int), 44).len() - 1 && #[trigger] pieces(
                    list@.subrange(0, i as int),
                    44,
                )[k].len() > 0 && occurs(name@, pieces(list@.subrange(0, i as int), 44)[k]),
        decreases list@.len() - i,
    {
        let ghost p = list@.subrange(0, i as int);
        let ghost q = list@.subrange(0, i + 1);
        let ghost fp = pieces(p, 44);
        assert(q.drop_last() =~= p);
        if list[i] == 44 {
            let hit = cur.len() > 0 && contains(name, cur.as_slice());
            found = found || hit;
            cur = Vec::new();
            proof {
                let fq = pieces(q, 44);
                assert(fq =~= fp.push(seq![]));
                assert(fq.len() - 1 == fp.len());
                if hit {
                    assert(fq[fp.len() - 1] == fp.last());
                    assert(fq[fp.len() - 1].len() > 0 && occurs(name@, fq[fp.len() - 1]));
                }
                if found {
                    if !hit {
                        let k = choose|k: int|
                            0 <= k < fp.len() - 1 && #[trigger] fp[k].len() > 0 && occurs(name@, fp[k]);
                        assert(fq[k] == fp[k]);
                    }
                } else {
                    assert forall|k: int| 0 <= k < fq.len() - 1 implies !(#[trigger] fq[k].len() > 0
                        && occurs(name@, fq[k])) by {
                        assert(fq[k] == fp[k]);
                    }
                }
            }
        } else {
            cur.push(list[i]);
            proof {
                let fq = pieces(q, 44);
                assert(fq =~= fp.update(fp.len() - 1, fp.last().push(list@[i as int])));
                assert forall|k: int| 0 <= k < fq.len() - 1 implies fq[k] == fp[k] by {}
                if found {
                    let k = choose|k: int|
                        0 <= k < fp.len() - 1 && #[trigger] fp[k].len() > 0 && occurs(name@, fp[k]);
                    assert(fq[k] == fp[k]);
                }
            }
        }
        i = i + 1;
    }
    assert(list@.subrange(0, list@.len() as int) =~= list@);
    let hit = cur.len() > 0 && contains(name, cur.as_slice());
    proof {
        if found && !hit {
            let k = choose|k: int| 0 <= k < fs.len() - 1 && #[trigger] fs[k].len() > 0 && occurs(name@, fs[k]);
        }
        if !found && !hit {
            assert forall|k: int| 0 <= k < fs.len() implies !(#[trigger] fs[k].len() > 0 && occurs(name@, fs[k])) by {
                if k < fs.len() - 1 {
                } else {
                    assert(fs[k] == fs.last());
                }
            }
        }
        if hit {
            assert(fs[fs.len() - 1] == fs.last());
        }
    }
    found || hit
}

/// `AQ_AUTOPILOT`: the virtual cursor clicks once every 8 s (at 60 frames a
/// second), half-way through.
pub fn autopilot_clicks(frame: u32) -> (r: bool)
    ensures
        r == (frame % 480 == 240),
{
    frame % 480 == 240
}

} // verus!
