//! Dynamic resolution that never shows: the level ladder, the start-up
//! calibration's state machine, and when a level may change.
//!
//! The resolution only moves when nobody can see it (the wallpaper sleeps or
//! the window is hidden), except when frames keep missing the refresh: then
//! the smallest step that ends it is taken at once. The cost model and the
//! frame timings that pick the levels are the caller's.
use vstd::prelude::*;
use crate::config::Quality;
use crate::config::parse_u32;
use crate::config::parse_u32_bytes;

verus! {

/// Number of levels of the ladder.
pub const LEVELS: u32 = 6;

/// Calibration frames skipped before the samples are taken.
pub const SKIP_FRAMES: u32 = 12;

/// Fog samples per level, in quarters of the preset's count: every level but
/// the last keeps them all.
pub open spec fn fog_quarters(level: u32) -> u32 {
    if level + 1 < LEVELS {
        4
    } else {
        2
    }
}

/// The fog samples of a quality preset at full resolution.
pub open spec fn fog_base(quality: Quality) -> u32 {
    match quality {
        Quality::High => 16,
        Quality::Medium => 12,
        Quality::Low => 10,
    }
}

/// Fog samples at a level: the preset's share, never below six.
pub open spec fn spec_fog_steps(quality: Quality, level: u32) -> u32 {
    let s = fog_base(quality) * fog_quarters(level) / 4;
    if s < 6 {
        6
    } else {
        s as u32
    }
}

/// The start-up measurement.
#[derive(Clone, Copy, PartialEq, Eq, Debug, Structural)]
pub enum Calibration {
    /// Waiting for the shaders and the decor (the curtain is down).
    Waiting,
    /// Uncapped frames at full resolution: frames to skip, then samples.
    Measuring { skip: u32 },
    Done,
}

/// What the caller does after a calibration tick.
#[derive(Clone, Copy, PartialEq, Eq, Debug, Structural)]
pub enum CalibrationStep {
    /// Nothing this frame.
    Idle,
    /// A fixed level was taken (captures, a pinned level): calibration over.
    Fixed,
    /// Measurement starts: clear the samples, note the time, no vsync.
    Start,
    /// The window was hidden: samples dropped, back to waiting, vsync again.
    Abort,
    /// Too long: finish with the reference model.
    TimedOut,
    /// A warm-up frame was skipped.
    Skip,
    /// Take this frame's time as a sample (and finish once enough are in).
    Sample,
}

/// What happens to the headroom (the time the frame has had to spare).
#[derive(Clone, Copy, PartialEq, Eq, Debug, Structural)]
pub enum Headroom {
    Reset,
    Grow,
}

/// The adaptive quality's discrete state.
pub struct AdaptiveQuality {
    pub level: u32,
    pub calibration: Calibration,
    /// Level to apply as soon as nobody is looking.
    pub pending: Option<u32>,
    /// Consecutive measuring windows with late frames and a saturated GPU.
    pub late_windows: u32,
}

impl AdaptiveQuality {
    pub const MAX_LEVEL: u32 = 5;

    /// Levels stay on the ladder.
    pub open spec fn wf(&self) -> bool {
        &&& self.level <= Self::MAX_LEVEL
        &&& match self.pending {
            Some(l) => l <= Self::MAX_LEVEL,
            None => true,
        }
    }

    /// Fog samples for `quality` at the current level.
    pub fn fog_steps(&self, quality: Quality) -> (n: u32)
        requires
            self.wf(),
        ensures
            n == spec_fog_steps(quality, self.level),
    {
        let base: u32 = match quality {
            Quality::High => 16,
            Quality::Medium => 12,
            Quality::Low => 10,
        };
        let quarters: u32 = if self.level + 1 < LEVELS {
            4
        } else {
            2
        };
        let s = base * quarters / 4;
        if s < 6 {
            6
        } else {
            s
        }
    }

    /// Start-up measurement running: render even if hidden, no frame cap.
    pub fn calibrating(&self) -> (r: bool)
        ensures
            r == (self.calibration is Measuring),
    {
        match self.calibration {
            Calibration::Measuring { .. } => true,
            _ => false,
        }
    }

    pub fn ready(&self) -> (r: bool)
        ensures
            r == (self.calibration == Calibration::Done),
    {
        match self.calibration {
            Calibration::Done => true,
            _ => false,
        }
    }

    /// One frame of the start-up calibration. `fixed`: the level to take at
    /// once (a capture takes 0, or a pinned level); `assets_ready`: shaders,
    /// decor and textures are in; `hidden`: nobody sees the window (its frame
    /// times would lie); `timed_out`: the measurement ran too long.
    pub fn calibrate(&mut self, fixed: Option<u32>, assets_ready: bool, hidden: bool, timed_out: bool) -> (step:
        CalibrationStep)
        requires
            old(self).wf(),
            match fixed {
                Some(l) => l <= Self::MAX_LEVEL,
                None => true,
            },
        ensures
            final(self).wf(),
            final(self).pending == old(self).pending,
            final(self).late_windows == old(self).late_windows,
            match old(self).calibration {
                Calibration::Done => step == CalibrationStep::Idle && *final(self) == *old(self),
                Calibration::Waiting => match fixed {
                    Some(l) => step == CalibrationStep::Fixed && final(self).level == l
                        && final(self).calibration == Calibration::Done,
                    None => if assets_ready && !hidden {
                        step == CalibrationStep::Start && final(self).level == 0
                            && final(self).calibration == (Calibration::Measuring { skip: SKIP_FRAMES })
                    } else {
                        step == CalibrationStep::Idle && *final(self) == *old(self)
                    },
                },
                Calibration::Measuring { skip } => final(self).level == old(self).level && if hidden {
                    step == CalibrationStep::Abort && final(self).calibration == Calibration::Waiting
                } else if timed_out {
                    step == CalibrationStep::TimedOut && final(self).calibration == old(self).calibration
                } else if skip > 0 {
                    step == CalibrationStep::Skip && final(self).calibration == (Calibration::Measuring {
                        skip: (skip - 1) as u32,
                    })
                } else {
                    step == CalibrationStep::Sample && final(self).calibration == old(self).calibration
                },
            },
    {
        match self.calibration {
            Calibration::Done => CalibrationStep::Idle,
            Calibration::Waiting => {
                match fixed {
                    Some(l) => {
                        self.level = l;
                        self.calibration = Calibration::Done;
                        CalibrationStep::Fixed
                    },
                    None => {
                        if !assets_ready || hidden {
                            CalibrationStep::Idle
                        } else {
                            self.level = 0;
                            self.calibration = Calibration::Measuring { skip: SKIP_FRAMES };
                            CalibrationStep::Start
                        }
                    },
                }
            },
            Calibration::Measuring { skip } => {
                if hidden {
                    self.calibration = Calibration::Waiting;
                    CalibrationStep::Abort
                } else if timed_out {
                    CalibrationStep::TimedOut
                } else if skip > 0 {
                    self.calibration = Calibration::Measuring { skip: skip - 1 };
                    CalibrationStep::Skip
                } else {
                    CalibrationStep::Sample
                }
            },
        }
    }

    /// Ends the calibration at the level that fits the frame budget.
    pub fn finish(&mut self, fitting: u32)
        requires
            fitting <= Self::MAX_LEVEL,
            old(self).wf(),
        ensures
            final(self).wf(),
            final(self).level == fitting,
            final(self).calibration == Calibration::Done,
            final(self).pending == old(self).pending,
            final(self).late_windows == old(self).late_windows,
    {
        self.level = fitting;
        self.calibration = Calibration::Done;
    }

    /// The picture changed size: the level is chosen again at once, and what
    /// was pending is dropped.
    pub fn rechoose(&mut self, fitting: u32)
        requires
            fitting <= Self::MAX_LEVEL,
            old(self).wf(),
        ensures
            final(self).wf(),
            final(self).level == fitting,
            final(self).pending is None,
            final(self).calibration == old(self).calibration,
            final(self).late_windows == old(self).late_windows,
    {
        self.level = fitting;
        self.pending = None;
    }

    /// Nobody is looking: the pending level, if any, is applied, and the late
    /// windows are forgotten. Returns the level left behind, if one was.
    pub fn unobserved(&mut self) -> (left: Option<u32>)
        requires
            old(self).wf(),
        ensures
            final(self).wf(),
            final(self).pending is None,
            final(self).late_windows == 0,
            final(self).calibration == old(self).calibration,
            match old(self).pending {
                Some(l) => final(self).level == l && left == Some(old(self).level),
                None => final(self).level == old(self).level && left is None,
            },
    {
        let left = match self.pending {
            Some(l) => {
                let before = self.level;
                self.level = l;
                Some(before)
            },
            None => None,
        };
        self.pending = None;
        self.late_windows = 0;
        left
    }

    /// A measuring window closed; `late`: frames missed the refresh with the
    /// GPU saturated. Returns whether a drop is now forced: late for two
    /// windows in a row, with a coarser level left.
    pub fn close_window(&mut self, late: bool) -> (forced: bool)
        requires
            old(self).wf(),
            old(self).late_windows < u32::MAX,
        ensures
            final(self).wf(),
            final(self).level == old(self).level,
            final(self).pending == old(self).pending,
            final(self).calibration == old(self).calibration,
            final(self).late_windows == if late {
                old(self).late_windows + 1
            } else {
                0
            },
            forced == (final(self).late_windows >= 2 && final(self).level < Self::MAX_LEVEL),
            *final(self) == spec_closed(*old(self), late),
    {
        self.late_windows = if late {
            self.late_windows + 1
        } else {
            0
        };
        self.late_windows >= 2 && self.level < Self::MAX_LEVEL
    }

    /// The forced drop: at least one level coarser, or the level that fits
    /// if that is coarser still; nothing stays pending.
    pub fn force_drop(&mut self, fitting: u32)
        requires
            old(self).wf(),
            old(self).level < Self::MAX_LEVEL,
            fitting <= Self::MAX_LEVEL,
        ensures
            final(self).wf(),
            final(self).level == if fitting > old(self).level + 1 {
                fitting
            } else {
                (old(self).level + 1) as u32
            },
            final(self).pending is None,
            final(self).late_windows == 0,
            final(self).calibration == old(self).calibration,
            *final(self) == spec_dropped(*old(self), fitting),
    {
        let up = self.level + 1;
        self.level = if fitting > up {
            fitting
        } else {
            up
        };
        self.pending = None;
        self.late_windows = 0;
    }

    /// Schedules the level that fits (`want`) for when nobody looks: a
    /// coarser one at once; a sharper one only after `patient` (the headroom
    /// has lasted long enough); none when the level is right.
    pub fn schedule(&mut self, want: u32, patient: bool) -> (h: Headroom)
        requires
            old(self).wf(),
            want <= Self::MAX_LEVEL,
        ensures
            final(self).wf(),
            final(self).level == old(self).level,
            final(self).late_windows == old(self).late_windows,
            final(self).calibration == old(self).calibration,
            if want > old(self).level {
                h == Headroom::Reset && final(self).pending == Some(want)
            } else if want < old(self).level {
                h == Headroom::Grow && final(self).pending == if patient {
                    Some(want)
                } else {
                    old(self).pending
                }
            } else {
                h == Headroom::Reset && final(self).pending is None
            },
            *final(self) == spec_scheduled(*old(self), want, patient),
    {
        if want > self.level {
            self.pending = Some(want);
            Headroom::Reset
        } else if want < self.level {
            if patient {
                self.pending = Some(want);
            }
            Headroom::Grow
        } else {
            self.pending = None;
            Headroom::Reset
        }
    }
    /// A pinned level (`AQ_LEVEL`) is taken as it is, whatever else holds.
    pub fn pin(&mut self, level: u32)
        requires
            old(self).wf(),
            level <= Self::MAX_LEVEL,
        ensures
            *final(self) == spec_pin(*old(self), Some(level)),
            final(self).wf(),
    {
        self.level = level;
    }
}

/// A measuring window closed (`late`: frames late with the GPU saturated).
pub open spec fn spec_closed(q: AdaptiveQuality, late: bool) -> AdaptiveQuality {
    AdaptiveQuality { late_windows: if late { (q.late_windows + 1) as u32 } else { 0 }, ..q }
}

/// The forced drop to `fitting`, or one level coarser if that is sharper.
pub open spec fn spec_dropped(q: AdaptiveQuality, fitting: u32) -> AdaptiveQuality {
    AdaptiveQuality {
        level: if fitting > q.level + 1 { fitting } else { (q.level + 1) as u32 },
        pending: None,
        late_windows: 0,
        ..q
    }
}

/// The level that fits (`want`) scheduled for when nobody looks.
pub open spec fn spec_scheduled(q: AdaptiveQuality, want: u32, patient: bool) -> AdaptiveQuality {
    if want > q.level {
        AdaptiveQuality { pending: Some(want), ..q }
    } else if want < q.level {
        if patient {
            AdaptiveQuality { pending: Some(want), ..q }
        } else {
            q
        }
    } else {
        AdaptiveQuality { pending: None, ..q }
    }
}

/// A measuring window while someone may be looking: closed, then a forced
/// drop where late windows call for one, else the fitting level scheduled.
pub open spec fn spec_watched_window(
    q: AdaptiveQuality,
    late: bool,
    fitting: u32,
    want: u32,
    patient: bool,
) -> AdaptiveQuality {
    let c = spec_closed(q, late);
    if c.late_windows >= 2 && c.level < AdaptiveQuality::MAX_LEVEL {
        spec_dropped(c, fitting)
    } else {
        spec_scheduled(c, want, patient)
    }
}

/// The level after the pinned level, if any, is applied.
pub open spec fn spec_pin(q: AdaptiveQuality, pinned: Option<u32>) -> AdaptiveQuality {
    match pinned {
        Some(l) => AdaptiveQuality { level: l, ..q },
        None => q,
    }
}

/// While someone may be looking, a measuring window either keeps the level
/// (a better one is only scheduled), or drops to a coarser one, with
/// nothing left pending and the late windows forgotten; the levels stay on
/// the ladder.
pub proof fn lemma_watched_window(q: AdaptiveQuality, late: bool, fitting: u32, want: u32, patient: bool)
    requires
        q.wf(),
        q.late_windows < u32::MAX,
        fitting <= AdaptiveQuality::MAX_LEVEL,
        want <= AdaptiveQuality::MAX_LEVEL,
    ensures
        ({
            let r = spec_watched_window(q, late, fitting, want, patient);
            &&& r.wf()
            &&& r.level == q.level || (q.level < AdaptiveQuality::MAX_LEVEL && r.level > q.level
                && r.pending is None && r.late_windows == 0)
        }),
{
}

/// A pinned level keeps the level on the ladder and is the level taken.
pub proof fn lemma_pinned_level(q: AdaptiveQuality, b: Seq<u8>)
    requires
        q.wf(),
    ensures
        spec_pin(q, spec_pinned(b)).wf(),
        match spec_pinned(b) {
            Some(l) => spec_pin(q, spec_pinned(b)).level == l && l <= AdaptiveQuality::MAX_LEVEL,
            None => spec_pin(q, spec_pinned(b)) == q,
        },
{
}

/// The hold after a forced drop while the machine was warm: the start-up
/// measurement counts again only once the machine has reported a normal
/// temperature for long enough (`active`: a hold is on; `cooling`: normal
/// temperatures since a moment the caller noted).
#[derive(Clone, Copy, PartialEq, Eq, Debug, Structural)]
pub struct HeatHold {
    pub active: bool,
    pub cooling: bool,
}

/// What the caller does after a step of the hold.
#[derive(Clone, Copy, PartialEq, Eq, Debug, Structural)]
pub enum HoldStep {
    Keep,
    /// Note now as the start of the cool spell.
    StartCooling,
    /// Warm again: forget the cool spell.
    StopCooling,
    /// Cool for long enough: the start-up measurement counts again.
    Release,
}

pub open spec fn spec_hold_step(h: HeatHold, normal: bool, cooled: bool) -> (HeatHold, HoldStep) {
    if !h.active {
        (h, HoldStep::Keep)
    } else if normal {
        if !h.cooling {
            (HeatHold { active: true, cooling: true }, HoldStep::StartCooling)
        } else if cooled {
            (HeatHold { active: false, cooling: false }, HoldStep::Release)
        } else {
            (h, HoldStep::Keep)
        }
    } else {
        (HeatHold { active: true, cooling: false }, HoldStep::StopCooling)
    }
}

impl HeatHold {
    /// A cool spell is only followed while a hold is on.
    pub open spec fn wf(&self) -> bool {
        self.cooling ==> self.active
    }

    pub fn new() -> (h: Self)
        ensures
            !h.active && !h.cooling,
    {
        HeatHold { active: false, cooling: false }
    }

    /// A forced drop: held if the machine reported heat (`warm`), with no
    /// cool spell yet.
    pub fn after_drop(&mut self, warm: bool)
        ensures
            final(self).active == warm,
            !final(self).cooling,
    {
        self.active = warm;
        self.cooling = false;
    }

    /// One step: `normal`, the machine reports a normal temperature;
    /// `cooled`, the cool spell has lasted long enough (five minutes).
    pub fn step(&mut self, normal: bool, cooled: bool) -> (s: HoldStep)
        ensures
            (*final(self), s) == spec_hold_step(*old(self), normal, cooled),
            old(self).wf() ==> final(self).wf(),
    {
        if !self.active {
            HoldStep::Keep
        } else if normal {
            if !self.cooling {
                self.cooling = true;
                HoldStep::StartCooling
            } else if cooled {
                self.active = false;
                self.cooling = false;
                HoldStep::Release
            } else {
                HoldStep::Keep
            }
        } else {
            self.cooling = false;
            HoldStep::StopCooling
        }
    }
}

/// A hold is released only at normal temperature, by a step that finds a
/// cool spell already under way (begun by an earlier step at normal
/// temperature) and long enough; any warm step ends the cool spell.
pub proof fn lemma_hold_released_only_when_cool(h: HeatHold, normal: bool, cooled: bool)
    requires
        h.wf(),
    ensures
        spec_hold_step(h, normal, cooled).1 == HoldStep::Release <==> (h.active && h.cooling && normal
            && cooled),
        !normal ==> !spec_hold_step(h, normal, cooled).0.cooling,
        spec_hold_step(h, normal, cooled).0.cooling ==> normal,
        h.active && spec_hold_step(h, normal, cooled).1 != HoldStep::Release ==> spec_hold_step(
            h,
            normal,
            cooled,
        ).0.active,
{
}


impl Default for AdaptiveQuality {
    fn default() -> (r: Self)
        ensures
            r.level == 0,
            r.calibration == Calibration::Waiting,
            r.pending is None,
            r.late_windows == 0,
    {
        AdaptiveQuality { level: 0, calibration: Calibration::Waiting, pending: None, late_windows: 0 }
    }
}

/// The sharpest level whose predicted cost fits, `fits[l]` telling whether
/// level `l` does; the coarsest level if none does.
pub fn first_fitting(fits: &Vec<bool>) -> (l: u32)
    requires
        fits@.len() == LEVELS,
    ensures
        l <= AdaptiveQuality::MAX_LEVEL,
        fits@[l as int] || l == AdaptiveQuality::MAX_LEVEL,
        forall|k: int| 0 <= k < l ==> !fits@[k],
{
    let mut l: u32 = 0;
    while l < AdaptiveQuality::MAX_LEVEL
        invariant
            fits@.len() == LEVELS,
            l <= AdaptiveQuality::MAX_LEVEL,
            forall|k: int| 0 <= k < l ==> !fits@[k],
        decreases AdaptiveQuality::MAX_LEVEL - l,
    {
        if fits[l as usize] {
            return l;
        }
        l = l + 1;
    }
    l
}

/// A pinned level (`AQ_LEVEL`): its number, at most the coarsest level.
pub open spec fn spec_pinned(b: Seq<u8>) -> Option<u32> {
    match parse_u32(b) {
        Some(n) => Some(if n > AdaptiveQuality::MAX_LEVEL {
            AdaptiveQuality::MAX_LEVEL
        } else {
            n
        }),
        None => None,
    }
}

pub fn pinned(b: &[u8]) -> (r: Option<u32>)
    ensures
        r == spec_pinned(b@),
{
    match parse_u32_bytes(b) {
        Some(n) => Some(if n > AdaptiveQuality::MAX_LEVEL {
            AdaptiveQuality::MAX_LEVEL
        } else {
            n
        }),
        None => None,
    }
}

/// Fog samples: every level but the coarsest keeps the preset's full count
/// (16 high, 12 medium, 10 low); the coarsest keeps half, never below six.
pub proof fn lemma_fog_by_level(level: u32)
    requires
        level < AdaptiveQuality::MAX_LEVEL,
    ensures
        spec_fog_steps(Quality::High, level) == 16,
        spec_fog_steps(Quality::Medium, level) == 12,
        spec_fog_steps(Quality::Low, level) == 10,
        spec_fog_steps(Quality::High, AdaptiveQuality::MAX_LEVEL) == 8,
        spec_fog_steps(Quality::Medium, AdaptiveQuality::MAX_LEVEL) == 6,
        spec_fog_steps(Quality::Low, AdaptiveQuality::MAX_LEVEL) == 6,
{
    assert(fog_quarters(level) == 4);
    assert(fog_quarters(AdaptiveQuality::MAX_LEVEL) == 2);
    assert(16 * 4 / 4 == 16 && 12 * 4 / 4 == 12 && 10 * 4 / 4 == 10);
    assert(16 * 2 / 4 == 8 && 12 * 2 / 4 == 6 && 10 * 2 / 4 == 5);
}

} // verus!
