//! The crab's gait: its legs form two alternating groups, and a planted
//! foot that has fallen behind steps only while the other group stands. A
//! foot out of reach steps at once, whatever the gait says.
use vstd::prelude::*;

verus! {

/// What a leg reports before its feet are moved.
#[derive(Clone, Copy, PartialEq, Eq, Debug, Structural)]
pub struct LegSense {
    /// Its gait group, 0 or 1 (neighbouring legs alternate).
    pub group: usize,
    /// The foot stands on the ground (its step is over).
    pub planted: bool,
    /// The foot is further than a stride from its rest position.
    pub far: bool,
    /// The foot is nearly out of the leg's reach.
    pub overstretched: bool,
    /// The foot is way off (the crab was moved): it is just put down.
    pub way_off: bool,
}

#[derive(Clone, Copy, PartialEq, Eq, Debug, Structural)]
pub enum LegMove {
    Hold,
    /// Start a step towards the ground below the rest position.
    Lift,
    /// Put the foot straight down there.
    PutDown,
}

/// The other gait group.
pub open spec fn other(g: usize) -> usize {
    (1 - g) as usize
}

/// Some foot of group `g` is in the air.
pub open spec fn stepping(legs: Seq<LegSense>, g: usize) -> bool {
    exists|j: int| 0 <= j < legs.len() && #[trigger] legs[j].group == g && !legs[j].planted
}

/// Some leg of group `g` among the first ones started a step.
pub open spec fn started(legs: Seq<LegSense>, moves: Seq<LegMove>, g: usize) -> bool {
    exists|j: int| 0 <= j < moves.len() && #[trigger] moves[j] == LegMove::Lift && legs[j].group == g
}

/// The move of leg `i`, the moves of the legs before it being `before`.
pub open spec fn move_of(legs: Seq<LegSense>, before: Seq<LegMove>, i: int) -> LegMove {
    let l = legs[i];
    if l.planted && (l.far && !stepping(legs, other(l.group)) && !started(legs, before, other(l.group))
        || l.overstretched) {
        if l.way_off {
            LegMove::PutDown
        } else {
            LegMove::Lift
        }
    } else {
        LegMove::Hold
    }
}

/// The moves of the first `n` legs, taken in order.
pub open spec fn plan(legs: Seq<LegSense>, n: nat) -> Seq<LegMove>
    decreases n,
{
    if n == 0 {
        seq![]
    } else {
        let p = plan(legs, (n - 1) as nat);
        p.push(move_of(legs, p, n - 1))
    }
}

pub open spec fn groups_valid(legs: Seq<LegSense>) -> bool {
    forall|i: int| 0 <= i < legs.len() ==> #[trigger] legs[i].group < 2
}

proof fn lemma_plan_len(legs: Seq<LegSense>, n: nat)
    ensures
        plan(legs, n).len() == n,
    decreases n,
{
    if n > 0 {
        lemma_plan_len(legs, (n - 1) as nat);
    }
}

proof fn lemma_plan_prefix(legs: Seq<LegSense>, n: nat, m: nat)
    requires
        m <= n,
    ensures
        plan(legs, m) =~= plan(legs, n).subrange(0, m as int),
    decreases n,
{
    lemma_plan_len(legs, n);
    lemma_plan_len(legs, m);
    if m < n {
        lemma_plan_prefix(legs, (n - 1) as nat, m);
        lemma_plan_len(legs, (n - 1) as nat);
    }
}

/// Some foot of group `g` is in the air.
fn any_stepping(legs: &Vec<LegSense>, g: usize) -> (r: bool)
    ensures
        r == stepping(legs@, g),
{
    let mut i: usize = 0;
    while i < legs.len()
        invariant
            i <= legs@.len(),
            forall|j: int| 0 <= j < i ==> !(#[trigger] legs@[j].group == g && !legs@[j].planted),
        decreases legs@.len() - i,
    {
        if legs[i].group == g && !legs[i].planted {
            return true;
        }
        i = i + 1;
    }
    false
}

/// The move of each leg this frame.
pub fn plan_steps(legs: &Vec<LegSense>) -> (moves: Vec<LegMove>)
    requires
        groups_valid(legs@),
    ensures
        moves@ == plan(legs@, legs@.len() as nat),
{
    let stepping0 = any_stepping(legs, 0);
    let stepping1 = any_stepping(legs, 1);
    let mut started0 = false;
    let mut started1 = false;
    let mut moves: Vec<LegMove> = Vec::new();
    let mut i: usize = 0;
    while i < legs.len()
        invariant
            groups_valid(legs@),
            i <= legs@.len(),
            stepping0 == stepping(legs@, 0),
            stepping1 == stepping(legs@, 1),
            moves@ == plan(legs@, i as nat),
            started0 == started(legs@, moves@, 0),
            started1 == started(legs@, moves@, 1),
        decreases legs@.len() - i,
    {
        let l = legs[i];
        proof {
            lemma_plan_len(legs@, i as nat);
        }
        let ghost before = moves@;
        let other_stepping = if l.group == 0 {
            stepping1
        } else {
            stepping0
        };
        let other_started = if l.group == 0 {
            started1
        } else {
            started0
        };
        assert(l.group < 2);
        let m = if l.planted && (l.far && !other_stepping && !other_started || l.overstretched) {
            if l.way_off {
                LegMove::PutDown
            } else {
                LegMove::Lift
            }
        } else {
            LegMove::Hold
        };
        moves.push(m);
        if m == LegMove::Lift {
            if l.group == 0 {
                started0 = true;
            } else {
                started1 = true;
            }
        }
        proof {
            let after = moves@;
            assert(after == before.push(m));
            assert(after[i as int] == m);
            if m == LegMove::Lift {
                if l.group == 0 {
                    assert(started(legs@, after, 0));
                } else {
                    assert(started(legs@, after, 1));
                }
            }
            assert forall|g: usize| started(legs@, after, g) == (started(legs@, before, g) || m
                == LegMove::Lift && l.group == g) by {
                if started(legs@, before, g) {
                    let j = choose|j: int| 0 <= j < before.len() && #[trigger] before[j] == LegMove::Lift
                        && legs@[j].group == g;
                    assert(after[j] == before[j]);
                }
                if started(legs@, after, g) {
                    let j = choose|j: int| 0 <= j < after.len() && #[trigger] after[j] == LegMove::Lift
                        && legs@[j].group == g;
                    if j < before.len() {
                        assert(after[j] == before[j]);
                    }
                }
            }
        }
        i = i + 1;
    }
    moves
}

/// The alternating gait: a leg that starts a step without being out of
/// reach does so only while no foot of the other group is in the air, and no
/// leg of the other group starts a step that frame unless it is itself out
/// of reach.
pub proof fn lemma_alternating_gait(legs: Seq<LegSense>)
    requires
        groups_valid(legs),
    ensures
        forall|i: int|
            0 <= i < legs.len() && #[trigger] plan(legs, legs.len() as nat)[i] == LegMove::Lift
                && !legs[i].overstretched ==> !stepping(legs, other(legs[i].group)),
        forall|i: int, j: int|
            0 <= i < legs.len() && 0 <= j < legs.len() && #[trigger] plan(legs, legs.len() as nat)[i]
                == LegMove::Lift && !legs[i].overstretched && #[trigger] plan(legs, legs.len() as nat)[j]
                == LegMove::Lift && legs[j].group != legs[i].group ==> legs[j].overstretched,
{
    let n = legs.len() as nat;
    let p = plan(legs, n);
    lemma_plan_len(legs, n);
    assert forall|i: int|
        0 <= i < legs.len() && #[trigger] p[i] == LegMove::Lift implies move_of(legs, plan(legs, i as nat), i)
        == LegMove::Lift by {
        lemma_plan_prefix(legs, n, (i + 1) as nat);
        lemma_plan_len(legs, i as nat);
        assert(plan(legs, (i + 1) as nat)[i] == p[i]);
    }
    assert forall|i: int, j: int|
        0 <= i < legs.len() && 0 <= j < legs.len() && #[trigger] p[i] == LegMove::Lift
            && !legs[i].overstretched && #[trigger] p[j] == LegMove::Lift && legs[j].group
            != legs[i].group implies legs[j].overstretched by {
        if !legs[j].overstretched {
            let (a, b) = if i < j {
                (i, j)
            } else {
                (j, i)
            };
            lemma_plan_prefix(legs, n, b as nat);
            lemma_plan_len(legs, b as nat);
            let before = plan(legs, b as nat);
            assert(before[a] == p[a]);
            assert(legs[a].group == other(legs[b].group));
            assert(started(legs, before, other(legs[b].group)));
        }
    }
}

} // verus!
