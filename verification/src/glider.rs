//! The flatfish's decisions: rest buried in the sand, glide to another spot,
//! bolt when startled. A flatfish rests on open sand only.
//!
//! The caller measures (timers, distances, room on the sand) and carries out
//! the returned `GlideAction`.
use vstd::prelude::*;

verus! {

#[derive(Clone, Copy, PartialEq, Eq, Debug, Structural)]
pub enum GlideMode {
    Rest,
    Glide,
    Startle,
}

/// The discrete part of a flatfish: its mode, and whether it settled where
/// there was no room (then it does not keep trying to move).
#[derive(Clone, Copy, PartialEq, Eq, Debug, Structural)]
pub struct GliderState {
    pub mode: GlideMode,
    pub stuck: bool,
}

/// What the flatfish perceives at a decision.
#[derive(Clone, Copy, PartialEq, Eq, Debug, Structural)]
pub struct GliderSenses {
    /// A threat within reach, or a startle of the whole tank.
    pub threatened: bool,
    /// The mode's timer has run out.
    pub timer_out: bool,
    /// It lies on a rock rather than on the sand.
    pub on_rock: bool,
    /// The sand around it is free of rocks.
    pub room: bool,
    /// The target is reached.
    pub arrived: bool,
}

#[derive(Clone, Copy, PartialEq, Eq, Debug, Structural)]
pub enum GlideAction {
    Keep,
    /// Startled: dash away from the threat, kicking up sand.
    Bolt,
    /// Leave the resting place for a new spot on the sand.
    SetOff,
    /// Arrived over a rock, which is no place to rest: pick another target.
    Retarget,
    /// Settle here and wriggle into the sand for a random while.
    Settle,
}

/// A resting flatfish is cramped when it lies on a rock, or, unless it
/// already gave up finding room, against one.
pub open spec fn cramped(g: GliderState, e: GliderSenses) -> bool {
    g.mode == GlideMode::Rest && (e.on_rock || !g.stuck && !e.room)
}

pub open spec fn spec_decide(g: GliderState, e: GliderSenses) -> (GliderState, GlideAction) {
    if e.threatened {
        if g.mode != GlideMode::Startle {
            (GliderState { mode: GlideMode::Startle, ..g }, GlideAction::Bolt)
        } else {
            (g, GlideAction::Keep)
        }
    } else if g.mode == GlideMode::Rest {
        if e.timer_out || cramped(g, e) {
            (GliderState { mode: GlideMode::Glide, stuck: false }, GlideAction::SetOff)
        } else {
            (g, GlideAction::Keep)
        }
    } else if e.arrived || e.timer_out {
        if e.on_rock {
            (g, GlideAction::Retarget)
        } else {
            (GliderState { mode: GlideMode::Rest, stuck: !e.room }, GlideAction::Settle)
        }
    } else {
        (g, GlideAction::Keep)
    }
}

/// One decision of a flatfish.
pub fn decide(g: GliderState, e: GliderSenses) -> (r: (GliderState, GlideAction))
    ensures
        r == spec_decide(g, e),
{
    if e.threatened {
        return match g.mode {
            GlideMode::Startle => (g, GlideAction::Keep),
            _ => (GliderState { mode: GlideMode::Startle, stuck: g.stuck }, GlideAction::Bolt),
        };
    }
    match g.mode {
        GlideMode::Rest => {
            if e.timer_out || e.on_rock || !g.stuck && !e.room {
                (GliderState { mode: GlideMode::Glide, stuck: false }, GlideAction::SetOff)
            } else {
                (g, GlideAction::Keep)
            }
        },
        _ => {
            if e.arrived || e.timer_out {
                if e.on_rock {
                    (g, GlideAction::Retarget)
                } else {
                    (GliderState { mode: GlideMode::Rest, stuck: !e.room }, GlideAction::Settle)
                }
            } else {
                (g, GlideAction::Keep)
            }
        },
    }
}

/// Whether the flatfish swims (and so lifts off the sand) in this mode.
pub fn moving(m: GlideMode) -> (r: bool)
    ensures
        r == (m != GlideMode::Rest),
{
    match m {
        GlideMode::Rest => false,
        _ => true,
    }
}

/// The label of a mode in the physics test's records (`probe`).
pub fn mode_name(m: GlideMode) -> (name: &'static str)
    ensures
        name@ == spec_mode_name(m)@,
{
    match m {
        GlideMode::Rest => "rest",
        GlideMode::Glide => "glide",
        GlideMode::Startle => "startle",
    }
}

pub open spec fn spec_mode_name(m: GlideMode) -> &'static str {
    match m {
        GlideMode::Rest => "rest",
        GlideMode::Glide => "glide",
        GlideMode::Startle => "startle",
    }
}

/// A flatfish settles on the sand only: it never comes to rest when it is
/// over a rock or threatened.
pub proof fn lemma_rests_on_sand_only(g: GliderState, e: GliderSenses)
    requires
        g.mode != GlideMode::Rest,
        spec_decide(g, e).0.mode == GlideMode::Rest,
    ensures
        !e.on_rock,
        !e.threatened,
        spec_decide(g, e).1 == GlideAction::Settle,
{
}

/// A threat always leaves the flatfish startled, and bolting happens once per
/// startle.
pub proof fn lemma_threat_startles(g: GliderState, e: GliderSenses)
    requires
        e.threatened,
    ensures
        spec_decide(g, e).0.mode == GlideMode::Startle,
        spec_decide(g, e).1 == GlideAction::Bolt <==> g.mode != GlideMode::Startle,
{
}

/// A resting flatfish left in peace sets off exactly when its rest is over
/// or it lies cramped, and then glides, no longer stuck; one that arrives
/// over a rock keeps its mode and only picks another target; one under way
/// that neither arrived nor ran out of time keeps going.
pub proof fn lemma_glide_outings(g: GliderState, e: GliderSenses)
    requires
        !e.threatened,
    ensures
        g.mode == GlideMode::Rest ==> (spec_decide(g, e).1 == GlideAction::SetOff <==> (e.timer_out
            || e.on_rock || !g.stuck && !e.room)),
        spec_decide(g, e).1 == GlideAction::SetOff ==> spec_decide(g, e).0 == (GliderState {
            mode: GlideMode::Glide,
            stuck: false,
        }),
        g.mode != GlideMode::Rest && (e.arrived || e.timer_out) && e.on_rock ==> spec_decide(g, e) == (
        g,
        GlideAction::Retarget,
        ),
        g.mode != GlideMode::Rest && !e.arrived && !e.timer_out ==> spec_decide(g, e) == (
        g,
        GlideAction::Keep,
        ),
        g.mode != GlideMode::Rest && (e.arrived || e.timer_out) && !e.on_rock ==> spec_decide(g, e).0
            == (GliderState { mode: GlideMode::Rest, stuck: !e.room }),
{
}

} // verus!
