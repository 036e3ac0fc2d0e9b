//! Food: the life of a flake (dropped, floating, sinking, resting on the
//! bottom, dissolving), the pool of flakes out of the water, and the ring of
//! surface ripples the drops make.
use vstd::prelude::*;

verus! {

/// Where a flake is in its life.
#[derive(Clone, Copy, PartialEq, Eq, Debug, Structural)]
pub enum FlakeState {
    /// In the pool, out of the water.
    Idle,
    /// Dropped, about to touch the water.
    Waiting,
    Floating,
    Sinking,
    /// Lying on the sand or on a rock.
    Resting,
    /// Dissolving.
    Fading,
}

/// The discrete part of a flake (its motion is the caller's).
#[derive(Clone, Copy, PartialEq, Eq, Debug, Structural)]
pub struct Flake {
    pub state: FlakeState,
}

/// What the caller does after a flake's update.
#[derive(Clone, Copy, PartialEq, Eq, Debug, Structural)]
pub enum FlakeChange {
    Unchanged,
    /// It touched the water: show it, restart its clock.
    Shown,
    /// The surface film let go: it starts to sink.
    Sinks,
    /// It came to lie on the bottom.
    Settles,
    /// It starts to dissolve.
    Fades,
    /// It has dissolved: back to the pool.
    Dissolves,
}

/// The state after an update: `expired`, the state's time is up (the wait,
/// the floating time, the resting time, the fading time); `landed`, a sinking
/// flake touched a surface flat enough to lie on.
pub open spec fn spec_advance(s: FlakeState, expired: bool, landed: bool) -> (FlakeState, FlakeChange) {
    match s {
        FlakeState::Waiting => if expired {
            (FlakeState::Floating, FlakeChange::Shown)
        } else {
            (s, FlakeChange::Unchanged)
        },
        FlakeState::Floating => if expired {
            (FlakeState::Sinking, FlakeChange::Sinks)
        } else {
            (s, FlakeChange::Unchanged)
        },
        FlakeState::Sinking => if landed {
            (FlakeState::Resting, FlakeChange::Settles)
        } else {
            (s, FlakeChange::Unchanged)
        },
        FlakeState::Resting => if expired {
            (FlakeState::Fading, FlakeChange::Fades)
        } else {
            (s, FlakeChange::Unchanged)
        },
        FlakeState::Fading => if expired {
            (s, FlakeChange::Dissolves)
        } else {
            (s, FlakeChange::Unchanged)
        },
        FlakeState::Idle => (s, FlakeChange::Unchanged),
    }
}

impl Flake {
    /// The state's label for the physics test; `None` when in the pool.
    pub fn probe(&self) -> (label: Option<&'static str>)
        ensures
            match self.state {
                FlakeState::Idle | FlakeState::Waiting => label is None,
                FlakeState::Floating => label == Some("floating"),
                FlakeState::Sinking => label == Some("sinking"),
                FlakeState::Resting => label == Some("resting"),
                FlakeState::Fading => label == Some("fading"),
            },
    {
        match self.state {
            FlakeState::Idle | FlakeState::Waiting => None,
            FlakeState::Floating => Some("floating"),
            FlakeState::Sinking => Some("sinking"),
            FlakeState::Resting => Some("resting"),
            FlakeState::Fading => Some("fading"),
        }
    }

    /// Food the animals see: in the water, not yet dissolving.
    pub open spec fn spec_edible(&self) -> bool {
        self.state == FlakeState::Floating || self.state == FlakeState::Sinking || self.state
            == FlakeState::Resting
    }

    pub fn edible(&self) -> (r: bool)
        ensures
            r == self.spec_edible(),
    {
        match self.state {
            FlakeState::Floating | FlakeState::Sinking | FlakeState::Resting => true,
            _ => false,
        }
    }

    pub fn resting(&self) -> (r: bool)
        ensures
            r == (self.state == FlakeState::Resting),
    {
        match self.state {
            FlakeState::Resting => true,
            _ => false,
        }
    }

    /// Fish snap flakes in the open water only: floating or sinking.
    pub fn catchable(&self) -> (r: bool)
        ensures
            r == (self.state == FlakeState::Floating || self.state == FlakeState::Sinking),
    {
        match self.state {
            FlakeState::Floating | FlakeState::Sinking => true,
            _ => false,
        }
    }

    /// Dropped into the tank.
    pub fn launch(&mut self)
        ensures
            final(self).state == FlakeState::Waiting,
    {
        self.state = FlakeState::Waiting;
    }

    /// One update of the flake's life.
    pub fn advance(&mut self, expired: bool, landed: bool) -> (c: FlakeChange)
        ensures
            (final(self).state, c) == spec_advance(old(self).state, expired, landed),
    {
        match self.state {
            FlakeState::Waiting => if expired {
                self.state = FlakeState::Floating;
                FlakeChange::Shown
            } else {
                FlakeChange::Unchanged
            },
            FlakeState::Floating => if expired {
                self.state = FlakeState::Sinking;
                FlakeChange::Sinks
            } else {
                FlakeChange::Unchanged
            },
            FlakeState::Sinking => if landed {
                self.state = FlakeState::Resting;
                FlakeChange::Settles
            } else {
                FlakeChange::Unchanged
            },
            FlakeState::Resting => if expired {
                self.state = FlakeState::Fading;
                FlakeChange::Fades
            } else {
                FlakeChange::Unchanged
            },
            FlakeState::Fading => if expired {
                FlakeChange::Dissolves
            } else {
                FlakeChange::Unchanged
            },
            FlakeState::Idle => FlakeChange::Unchanged,
        }
    }
}

/// The flakes out of the water, by entity id, ready to be dropped.
pub struct FoodPool {
    pub free: Vec<u64>,
}

/// Consuming flake `e` in state `s`: a flake in the water leaves it and
/// joins the pool; one already out changes nothing.
pub open spec fn spec_consume(free: Seq<u64>, s: FlakeState, e: u64) -> (Seq<u64>, FlakeState) {
    if s != FlakeState::Idle {
        (free.push(e), FlakeState::Idle)
    } else {
        (free, s)
    }
}

impl FoodPool {
    pub fn new() -> (p: Self)
        ensures
            p.free@ == Seq::<u64>::empty(),
    {
        FoodPool { free: Vec::new() }
    }

    /// A flake made for the pool.
    pub fn give(&mut self, e: u64)
        ensures
            final(self).free@ == old(self).free@.push(e),
    {
        self.free.push(e);
    }

    /// The flake to drop next, if any is left: the last one given back.
    pub fn take(&mut self) -> (e: Option<u64>)
        ensures
            if old(self).free@.len() == 0 {
                e is None && final(self).free@ == old(self).free@
            } else {
                e == Some(old(self).free@.last()) && final(self).free@ == old(self).free@.drop_last()
            },
    {
        self.free.pop()
    }

    /// Removes an eaten flake from the water. Returns whether it was in the
    /// water (and so is to be hidden now).
    pub fn consume(&mut self, e: u64, flake: &mut Flake) -> (hide: bool)
        ensures
            (final(self).free@, final(flake).state) == spec_consume(old(self).free@, old(flake).state, e),
            hide == (old(flake).state != FlakeState::Idle),
    {
        match flake.state {
            FlakeState::Idle => false,
            _ => {
                flake.state = FlakeState::Idle;
                self.free.push(e);
                true
            },
        }
    }
}

/// Eating a flake twice is eating it once: a flake is given back to the pool
/// a single time, whoever eats it.
pub proof fn lemma_consume_once(free: Seq<u64>, s: FlakeState, e: u64)
    ensures
        spec_consume(spec_consume(free, s, e).0, spec_consume(free, s, e).1, e) == spec_consume(free, s, e),
{
}

/// One update of flake `e` (in state `s`) with the pool holding `free`: the
/// flake's step, and a dissolved flake back to the pool.
pub open spec fn spec_update(free: Seq<u64>, s: FlakeState, e: u64, expired: bool, landed: bool) -> (
    Seq<u64>,
    FlakeState,
) {
    let (s1, c) = spec_advance(s, expired, landed);
    if c == FlakeChange::Dissolves {
        spec_consume(free, s1, e)
    } else {
        (free, s1)
    }
}

impl FoodPool {
    /// One update of a flake's life; a flake that has dissolved goes back to
    /// the pool (to be hidden by the caller).
    pub fn update(&mut self, e: u64, flake: &mut Flake, expired: bool, landed: bool) -> (c: FlakeChange)
        ensures
            c == spec_advance(old(flake).state, expired, landed).1,
            (final(self).free@, final(flake).state) == spec_update(
                old(self).free@,
                old(flake).state,
                e,
                expired,
                landed,
            ),
    {
        let c = flake.advance(expired, landed);
        match c {
            FlakeChange::Dissolves => {
                self.consume(e, flake);
            },
            _ => {},
        }
        c
    }
}

/// `n` updates in which every time is up and a sinking flake lands.
pub open spec fn updates(free: Seq<u64>, s: FlakeState, e: u64, n: nat) -> (Seq<u64>, FlakeState)
    decreases n,
{
    if n == 0 {
        (free, s)
    } else {
        let (f1, s1) = spec_update(free, s, e, true, true);
        updates(f1, s1, e, (n - 1) as nat)
    }
}

/// The life of a flake ends in the pool, once: an update gives a flake back
/// to the pool only when it dissolves, and then exactly once; a flake in the
/// pool is left alone by its updates; and a flake in the water, when its
/// times run out and it lands, is back in the pool, given back once, within
/// five updates.
pub proof fn lemma_flake_returns_once(free: Seq<u64>, s: FlakeState, e: u64, expired: bool, landed: bool)
    ensures
        spec_update(free, s, e, expired, landed).0 == if s == FlakeState::Fading && expired {
            free.push(e)
        } else {
            free
        },
        s == FlakeState::Fading && expired ==> spec_update(free, s, e, expired, landed).1
            == FlakeState::Idle,
        s == FlakeState::Idle ==> spec_update(free, s, e, expired, landed) == (free, s),
        s != FlakeState::Idle ==> updates(free, s, e, 5) == (free.push(e), FlakeState::Idle),
{
    reveal_with_fuel(updates, 6);
}

// ---------------------------------------------------------------------------
// Surface ripples
// ---------------------------------------------------------------------------

/// Number of ripple rings.
pub const RINGS: usize = 4;

/// Surface rings, written round robin: each drop takes the slot of the
/// oldest one.
pub struct Drops<T> {
    pub rings: Vec<T>,
    pub next: usize,
    pub dirty: bool,
}

impl<T: Copy> Drops<T> {
    pub open spec fn wf(&self) -> bool {
        self.rings@.len() == RINGS && self.next < RINGS
    }

    /// Four blank rings.
    pub fn new(blank: T) -> (d: Self)
        ensures
            d.wf(),
            d.next == 0,
            !d.dirty,
            d.rings@ == seq![blank, blank, blank, blank],
    {
        let rings = vec![blank, blank, blank, blank];
        Drops { rings, next: 0, dirty: false }
    }

    /// A new drop: it replaces the oldest ring.
    pub fn add(&mut self, ring: T)
        requires
            old(self).wf(),
        ensures
            final(self).wf(),
            final(self).rings@ == old(self).rings@.update(old(self).next as int, ring),
            final(self).next == (old(self).next + 1) % (RINGS as int),
            final(self).dirty,
    {
        let k = self.next;
        self.rings.set(k, ring);
        self.next = (k + 1) % RINGS;
        self.dirty = true;
    }

    /// Whether the rings changed since the last call (they are then to be
    /// handed to the materials).
    pub fn take_dirty(&mut self) -> (was: bool)
        ensures
            was == old(self).dirty,
            !final(self).dirty,
            final(self).rings == old(self).rings,
            final(self).next == old(self).next,
    {
        let was = self.dirty;
        self.dirty = false;
        was
    }
}

/// The rings and next slot after adding `items` in order.
pub open spec fn add_all<T>(rings: Seq<T>, next: int, items: Seq<T>) -> (Seq<T>, int)
    decreases items.len(),
{
    if items.len() == 0 {
        (rings, next)
    } else {
        let (r, n) = add_all(rings, next, items.drop_last());
        (r.update(n, items.last()), (n + 1) % (RINGS as int))
    }
}

proof fn lemma_add_all_next<T>(rings: Seq<T>, next: int, items: Seq<T>)
    requires
        rings.len() == RINGS,
        0 <= next < RINGS,
    ensures
        add_all(rings, next, items).0.len() == RINGS,
        add_all(rings, next, items).1 == (next + items.len()) % (RINGS as int),
    decreases items.len(),
{
    if items.len() > 0 {
        lemma_add_all_next(rings, next, items.drop_last());
        let m = items.len() - 1;
        assert(((next + m) % 4 + 1) % 4 == (next + m + 1) % 4) by (nonlinear_arith)
            requires
                0 <= next + m,
        ;
    }
}

/// The rings keep the latest drops: after any run of drops, the ring that
/// the `j`-th latest drop went to (for `j` up to the ring count) holds it.
pub proof fn lemma_rings_hold_latest<T>(rings: Seq<T>, next: int, items: Seq<T>, j: int)
    requires
        rings.len() == RINGS,
        0 <= next < RINGS,
        1 <= j <= RINGS,
        j <= items.len(),
    ensures
        add_all(rings, next, items).0[(next + items.len() - j) % (RINGS as int)] == items[items.len()
            - j],
    decreases items.len(),
{
    let n = items.len() as int;
    let prev = items.drop_last();
    lemma_add_all_next(rings, next, prev);
    let slot = (next + n - 1) % 4;
    if j == 1 {
    } else {
        lemma_rings_hold_latest(rings, next, prev, j - 1);
        assert(prev[prev.len() - (j - 1)] == items[n - j]);
        // The slot of the j-th latest drop differs from that of the latest one.
        assert((next + n - j) % 4 != slot) by (nonlinear_arith)
            requires
                2 <= j <= 4,
                n >= j,
                0 <= next,
                slot == (next + n - 1) % 4,
        ;
        assert((next + prev.len() - (j - 1)) % 4 == (next + n - j) % 4);
    }
}

/// The life cycle goes waiting, floating, sinking, resting, fading, one step
/// at a time: a flake moves on only when its time is up (a sinking one when
/// it lands), and never skips or goes back a stage.
pub proof fn lemma_flake_stages(s: FlakeState, expired: bool, landed: bool)
    ensures
        spec_advance(FlakeState::Waiting, true, landed) == (FlakeState::Floating, FlakeChange::Shown),
        spec_advance(FlakeState::Floating, true, landed) == (FlakeState::Sinking, FlakeChange::Sinks),
        spec_advance(FlakeState::Sinking, expired, true) == (FlakeState::Resting, FlakeChange::Settles),
        spec_advance(FlakeState::Resting, true, landed) == (FlakeState::Fading, FlakeChange::Fades),
        spec_advance(FlakeState::Fading, true, landed) == (FlakeState::Fading, FlakeChange::Dissolves),
        spec_advance(FlakeState::Idle, expired, landed) == (FlakeState::Idle, FlakeChange::Unchanged),
        s != FlakeState::Sinking ==> spec_advance(s, false, landed) == (s, FlakeChange::Unchanged),
        spec_advance(FlakeState::Sinking, expired, false) == (FlakeState::Sinking, FlakeChange::Unchanged),
{
}

} // verus!
