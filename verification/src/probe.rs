//! The physics test bench's time step (`AQ_PHYSICS_DT`): a fixed 1/60 s, a
//! fixed 1/30 s (`30`), or the irregular steps of a window missing refreshes
//! (`vsync`): a window at about 45 fps, where a third of the frames miss a
//! refresh and a 100 ms hitch comes every few seconds.
use vstd::prelude::*;

verus! {

#[derive(Clone, Copy, PartialEq, Eq, Debug, Structural)]
pub enum DtMode {
    Sixty,
    Thirty,
    Vsync,
}

/// The length of a frame's time step.
#[derive(Clone, Copy, PartialEq, Eq, Debug, Structural)]
pub enum Step {
    /// 1/60 s.
    Frame,
    /// 1/30 s: a missed refresh.
    Missed,
    /// 100 ms.
    Hitch,
}

pub open spec fn spec_dt_mode(b: Seq<u8>) -> DtMode {
    if b == seq![51u8, 48u8] {
        DtMode::Thirty
    } else if b == seq![118u8, 115u8, 121u8, 110u8, 99u8] {
        DtMode::Vsync
    } else {
        DtMode::Sixty
    }
}

/// The mode that the variable's bytes name: `30`, `vsync`, else 1/60 s.
pub fn dt_mode(b: &[u8]) -> (m: DtMode)
    ensures
        m == spec_dt_mode(b@),
{
    if b.len() == 2 && b[0] == 51 && b[1] == 48 {
        assert(b@ =~= seq![51u8, 48u8]);
        DtMode::Thirty
    } else if b.len() == 5 && b[0] == 118 && b[1] == 115 && b[2] == 121 && b[3] == 110 && b[4] == 99 {
        assert(b@ =~= seq![118u8, 115u8, 121u8, 110u8, 99u8]);
        DtMode::Vsync
    } else {
        DtMode::Sixty
    }
}

/// Frame `n`'s slot in the irregular pattern: a multiplicative hash of the
/// frame number (modulo 2^32), without its low 7 bits, modulo 300.
pub open spec fn vsync_slot(n: u32) -> int {
    ((n * 2654435761) % 0x1_0000_0000) / 128 % 300
}

pub open spec fn spec_step(m: DtMode, n: u32) -> Step {
    match m {
        DtMode::Sixty => Step::Frame,
        DtMode::Thirty => Step::Missed,
        DtMode::Vsync => if vsync_slot(n) == 0 {
            Step::Hitch
        } else if vsync_slot(n) % 3 == 0 {
            Step::Missed
        } else {
            Step::Frame
        },
    }
}

/// The time step that follows frame `n`.
pub fn step_after(m: DtMode, n: u32) -> (s: Step)
    ensures
        s == spec_step(m, n),
{
    match m {
        DtMode::Sixty => Step::Frame,
        DtMode::Thirty => Step::Missed,
        DtMode::Vsync => {
            let h: u32 = n.wrapping_mul(2654435761);
            let x: u32 = h >> 7u32;
            assert(h >> 7u32 == h / 128) by (bit_vector);
            let k: u32 = x % 300;
            if k == 0 {
                Step::Hitch
            } else if k % 3 == 0 {
                Step::Missed
            } else {
                Step::Frame
            }
        },
    }
}

/// `30` selects steps of 1/30 s, `vsync` the irregular steps, anything else
/// 1/60 s; the fixed modes give the same step after every frame, and in the
/// irregular mode frame 0 is a hitch.
pub proof fn lemma_time_steps(b: Seq<u8>, n: u32, m: u32)
    ensures
        spec_dt_mode(seq![51u8, 48u8]) == DtMode::Thirty,
        spec_dt_mode(seq![118u8, 115u8, 121u8, 110u8, 99u8]) == DtMode::Vsync,
        spec_dt_mode(seq![54u8, 48u8]) == DtMode::Sixty,
        spec_dt_mode(Seq::<u8>::empty()) == DtMode::Sixty,
        spec_step(DtMode::Sixty, n) == Step::Frame,
        spec_step(DtMode::Thirty, n) == Step::Missed,
        spec_step(DtMode::Thirty, n) == spec_step(DtMode::Thirty, m),
        spec_step(DtMode::Vsync, 0) == Step::Hitch,
        spec_step(DtMode::Vsync, n) == Step::Hitch <==> vsync_slot(n) == 0,
{
    assert(seq![54u8, 48u8] != seq![51u8, 48u8]) by {
        assert(seq![54u8, 48u8][0] != seq![51u8, 48u8][0]);
    }
    assert(seq![54u8, 48u8] != seq![118u8, 115u8, 121u8, 110u8, 99u8]) by {
        assert(seq![54u8, 48u8].len() != seq![118u8, 115u8, 121u8, 110u8, 99u8].len());
    }
    assert(Seq::<u8>::empty() != seq![51u8, 48u8]) by {
        assert(Seq::<u8>::empty().len() != seq![51u8, 48u8].len());
    }
    assert(Seq::<u8>::empty() != seq![118u8, 115u8, 121u8, 110u8, 99u8]) by {
        assert(Seq::<u8>::empty().len() != seq![118u8, 115u8, 121u8, 110u8, 99u8].len());
    }
    assert(seq![118u8, 115u8, 121u8, 110u8, 99u8] != seq![51u8, 48u8]) by {
        assert(seq![118u8, 115u8, 121u8, 110u8, 99u8].len() != seq![51u8, 48u8].len());
    }
}

} // verus!
