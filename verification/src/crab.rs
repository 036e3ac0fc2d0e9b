//! The hermit crab's decisions, taken four times a second: forage, pause,
//! go for a flake of food lying nearby, run for cover from a threat, hide.
//!
//! The caller measures (distances, timers, threats) and hands the verdicts
//! over as `CrabSenses`; it then carries out the returned `CrabAction`.
use vstd::prelude::*;

verus! {

#[derive(Clone, Copy, PartialEq, Eq, Debug, Structural)]
pub enum CrabState {
    Forage,
    Pause,
    Eat,
    Flee,
    Hidden,
}

/// What the crab perceives at a decision.
#[derive(Clone, Copy, PartialEq, Eq, Debug, Structural)]
pub struct CrabSenses {
    /// A threat within reach, or a startle of the whole tank.
    pub threatened: bool,
    /// A flake lies on the bottom within reach.
    pub food_near: bool,
    /// The state's timer has run out.
    pub timer_out: bool,
    /// Foraging: the wander target is reached.
    pub at_target: bool,
    /// Eating: the flake it goes for is still in the water.
    pub food_present: bool,
    /// Eating: the flake is within reach of the claws.
    pub at_food: bool,
    /// Fleeing: cover is reached, or it has run too long.
    pub flee_over: bool,
}

/// What the caller does after a decision.
#[derive(Clone, Copy, PartialEq, Eq, Debug, Structural)]
pub enum CrabAction {
    /// Carry on.
    Keep,
    /// Hidden and threatened again: stay in at least the full hiding time.
    StayHidden,
    /// Run for the closest cover away from the threat: drop the food, reset
    /// the timer, kick up a puff of sand.
    RunForCover,
    /// Go for the closest flake lying nearby.
    GoForFood,
    /// Set off for a new wander target.
    Wander,
    /// Stop for a random while.
    Rest,
    /// The flake is gone: a short pause.
    LoseFood,
    /// Follow the flake it goes for.
    FollowFood,
    /// Eat the flake, then pause.
    EatFood,
    /// In cover: hide for a random while, with a puff of sand.
    Hide,
}

/// The decision from the crab's state and senses: danger first, then the
/// state's own business.
pub open spec fn spec_think(s: CrabState, e: CrabSenses) -> (CrabState, CrabAction) {
    if e.threatened && s != CrabState::Hidden && s != CrabState::Flee {
        (CrabState::Flee, CrabAction::RunForCover)
    } else if e.threatened && s == CrabState::Hidden {
        // The hiding time is extended, so it does not run out now.
        (CrabState::Hidden, CrabAction::StayHidden)
    } else {
        match s {
            CrabState::Forage | CrabState::Pause => if e.food_near {
                (CrabState::Eat, CrabAction::GoForFood)
            } else if s == CrabState::Pause && e.timer_out {
                (CrabState::Forage, CrabAction::Wander)
            } else if s == CrabState::Forage && (e.at_target || e.timer_out) {
                (CrabState::Pause, CrabAction::Rest)
            } else {
                (s, CrabAction::Keep)
            },
            CrabState::Eat => if !e.food_present {
                (CrabState::Pause, CrabAction::LoseFood)
            } else if e.at_food {
                (CrabState::Pause, CrabAction::EatFood)
            } else {
                (CrabState::Eat, CrabAction::FollowFood)
            },
            CrabState::Flee => if e.flee_over {
                (CrabState::Hidden, CrabAction::Hide)
            } else {
                (CrabState::Flee, CrabAction::Keep)
            },
            CrabState::Hidden => if e.timer_out {
                (CrabState::Forage, CrabAction::Wander)
            } else {
                (CrabState::Hidden, CrabAction::Keep)
            },
        }
    }
}

/// One decision of the crab.
pub fn think(s: CrabState, e: CrabSenses) -> (r: (CrabState, CrabAction))
    ensures
        r == spec_think(s, e),
{
    if e.threatened {
        match s {
            CrabState::Hidden => return (CrabState::Hidden, CrabAction::StayHidden),
            CrabState::Flee => {},
            _ => return (CrabState::Flee, CrabAction::RunForCover),
        }
    }
    match s {
        CrabState::Forage | CrabState::Pause => {
            let pausing = match s {
                CrabState::Pause => true,
                _ => false,
            };
            if e.food_near {
                (CrabState::Eat, CrabAction::GoForFood)
            } else if pausing && e.timer_out {
                (CrabState::Forage, CrabAction::Wander)
            } else if !pausing && (e.at_target || e.timer_out) {
                (CrabState::Pause, CrabAction::Rest)
            } else {
                (s, CrabAction::Keep)
            }
        },
        CrabState::Eat => {
            if !e.food_present {
                (CrabState::Pause, CrabAction::LoseFood)
            } else if e.at_food {
                (CrabState::Pause, CrabAction::EatFood)
            } else {
                (CrabState::Eat, CrabAction::FollowFood)
            }
        },
        CrabState::Flee => {
            if e.flee_over {
                (CrabState::Hidden, CrabAction::Hide)
            } else {
                (CrabState::Flee, CrabAction::Keep)
            }
        },
        CrabState::Hidden => {
            if e.timer_out {
                (CrabState::Forage, CrabAction::Wander)
            } else {
                (CrabState::Hidden, CrabAction::Keep)
            }
        },
    }
}

/// The label of a state in the physics test's records (`probe`).
pub fn state_name(s: CrabState) -> (name: &'static str)
    ensures
        name@ == spec_state_name(s)@,
{
    match s {
        CrabState::Forage => "forage",
        CrabState::Pause => "pause",
        CrabState::Eat => "eat",
        CrabState::Flee => "flee",
        CrabState::Hidden => "hidden",
    }
}

pub open spec fn spec_state_name(s: CrabState) -> &'static str {
    match s {
        CrabState::Forage => "forage",
        CrabState::Pause => "pause",
        CrabState::Eat => "eat",
        CrabState::Flee => "flee",
        CrabState::Hidden => "hidden",
    }
}

/// Danger first: a threatened crab is hidden or fleeing after any decision,
/// and one out in the open starts to run for cover.
pub proof fn lemma_danger_first(s: CrabState, e: CrabSenses)
    requires
        e.threatened,
    ensures
        spec_think(s, e).0 == CrabState::Hidden || spec_think(s, e).0 == CrabState::Flee,
        s != CrabState::Hidden && s != CrabState::Flee ==> spec_think(s, e) == (
        CrabState::Flee,
        CrabAction::RunForCover,
        ),
        s == CrabState::Hidden ==> spec_think(s, e).0 == CrabState::Hidden,
{
}

/// A crab leaves its cover only when nothing threatens it and its hiding
/// time is over, and then goes foraging.
pub proof fn lemma_leaves_cover_safely(e: CrabSenses)
    ensures
        spec_think(CrabState::Hidden, e).0 != CrabState::Hidden <==> (!e.threatened && e.timer_out),
        spec_think(CrabState::Hidden, e).0 != CrabState::Hidden ==> spec_think(CrabState::Hidden, e).0
            == CrabState::Forage,
{
}

/// A crab eats only what it went for: a flake is eaten only from the eating
/// state, unthreatened, with the flake present and within reach.
pub proof fn lemma_eats_only_reached_food(s: CrabState, e: CrabSenses)
    ensures
        spec_think(s, e).1 == CrabAction::EatFood <==> (s == CrabState::Eat && !e.threatened
            && e.food_present && e.at_food),
{
}

/// Food comes first for a crab at leisure: an unthreatened crab that forages
/// or pauses, with food lying near, switches to eating and goes for the
/// food, whatever else it senses; without food near, a pausing crab whose
/// time is up sets off foraging, and a foraging one that arrived or ran out
/// of time pauses.
pub proof fn lemma_food_first(s: CrabState, e: CrabSenses)
    requires
        !e.threatened,
        s == CrabState::Forage || s == CrabState::Pause,
    ensures
        e.food_near ==> spec_think(s, e) == (CrabState::Eat, CrabAction::GoForFood),
        !e.food_near && s == CrabState::Pause && e.timer_out ==> spec_think(s, e) == (
            CrabState::Forage,
            CrabAction::Wander,
        ),
        !e.food_near && s == CrabState::Forage && (e.at_target || e.timer_out) ==> spec_think(s, e)
            == (CrabState::Pause, CrabAction::Rest),
        spec_think(s, e).0 == CrabState::Eat <==> e.food_near,
{
}

/// Eating and fleeing run their course: an unthreatened eater whose flake is
/// gone pauses, one whose flake is still out of reach follows it; a fleeing
/// crab hides once the flight is over and keeps running until then.
pub proof fn lemma_eat_and_flee(e: CrabSenses)
    ensures
        !e.threatened && !e.food_present ==> spec_think(CrabState::Eat, e) == (
            CrabState::Pause,
            CrabAction::LoseFood,
        ),
        !e.threatened && e.food_present && !e.at_food ==> spec_think(CrabState::Eat, e) == (
            CrabState::Eat,
            CrabAction::FollowFood,
        ),
        e.flee_over ==> spec_think(CrabState::Flee, e) == (CrabState::Hidden, CrabAction::Hide),
        !e.flee_over ==> spec_think(CrabState::Flee, e) == (CrabState::Flee, CrabAction::Keep),
{
}

} // verus!
