//! The decor's distance-field grid: cell numbering, and the flood fill that
//! tells the open water (reached from the top layer through passable cells)
//! from the inside of the rocks.
use vstd::prelude::*;

verus! {

/// The dimensions of a grid of `nx` x `ny` x `nz` nodes, numbered with x
/// fastest, then y, then z.
#[derive(Clone, Copy, PartialEq, Eq, Debug, Structural)]
pub struct Layout {
    pub nx: u32,
    pub ny: u32,
    pub nz: u32,
}

impl Layout {
    /// Non-empty, and its nodes can be numbered in 32 bits.
    pub open spec fn wf(self) -> bool {
        &&& 1 <= self.nx
        &&& 1 <= self.ny
        &&& 1 <= self.nz
        &&& self.nx * self.ny * self.nz <= u32::MAX
    }

    /// Number of nodes.
    pub open spec fn cells(self) -> int {
        self.nx * self.ny * self.nz
    }

    /// Whether (x, y, z) is a node of the grid.
    pub open spec fn inside(self, x: int, y: int, z: int) -> bool {
        0 <= x < self.nx && 0 <= y < self.ny && 0 <= z < self.nz
    }

    /// The number of node (x, y, z).
    pub open spec fn idx(self, x: int, y: int, z: int) -> int {
        (z * self.ny + y) * self.nx + x
    }

    /// Number of nodes.
    pub fn count(&self) -> (n: usize)
        requires
            self.wf(),
        ensures
            n == self.cells(),
    {
        assert(self.nx * self.ny <= self.nx * self.ny * self.nz) by (nonlinear_arith)
            requires
                1 <= self.nz,
                0 <= self.nx * self.ny,
        ;
        assert(0 <= self.nx * self.ny) by (nonlinear_arith);
        (self.nx as usize) * (self.ny as usize) * (self.nz as usize)
    }

    /// The number of node (x, y, z).
    pub fn index(&self, x: u32, y: u32, z: u32) -> (k: usize)
        requires
            self.wf(),
            self.inside(x as int, y as int, z as int),
        ensures
            k == self.idx(x as int, y as int, z as int),
            k < self.cells(),
    {
        proof {
            lemma_idx_bounds(*self, x as int, y as int, z as int);
        }
        assert(z * self.ny + y <= (z * self.ny + y) * self.nx + x) by (nonlinear_arith)
            requires
                1 <= self.nx,
                0 <= y,
                0 <= z,
                0 <= x,
                0 <= self.ny,
        ;
        assert(0 <= z * self.ny <= z * self.ny + y) by (nonlinear_arith)
            requires
                0 <= y,
                0 <= z,
                0 <= self.ny,
        ;
        let zy: usize = z as usize * self.ny as usize + y as usize;
        let zyx: usize = zy * self.nx as usize;
        zyx + x as usize
    }
}

/// Every node has a number below the node count.
pub proof fn lemma_idx_bounds(l: Layout, x: int, y: int, z: int)
    requires
        l.wf(),
        l.inside(x, y, z),
    ensures
        0 <= l.idx(x, y, z) < l.cells(),
{
    assert(0 <= l.idx(x, y, z) < l.cells()) by (nonlinear_arith)
        requires
            0 <= x < l.nx,
            0 <= y < l.ny,
            0 <= z < l.nz,
    ;
}

/// Distinct nodes have distinct numbers.
pub proof fn lemma_idx_injective(l: Layout, a: (int, int, int), b: (int, int, int))
    requires
        l.wf(),
        l.inside(a.0, a.1, a.2),
        l.inside(b.0, b.1, b.2),
        l.idx(a.0, a.1, a.2) == l.idx(b.0, b.1, b.2),
    ensures
        a == b,
{
    let nx = l.nx as int;
    let ny = l.ny as int;
    let ka = a.2 * ny + a.1;
    let kb = b.2 * ny + b.1;
    vstd::arithmetic::div_mod::lemma_fundamental_div_mod_converse(l.idx(a.0, a.1, a.2), nx, ka, a.0);
    vstd::arithmetic::div_mod::lemma_fundamental_div_mod_converse(l.idx(b.0, b.1, b.2), nx, kb, b.0);
    vstd::arithmetic::div_mod::lemma_fundamental_div_mod_converse(ka, ny, a.2, a.1);
    vstd::arithmetic::div_mod::lemma_fundamental_div_mod_converse(kb, ny, b.2, b.1);
}

// ---------------------------------------------------------------------------
// Flood fill
// ---------------------------------------------------------------------------

/// A node of the top layer that can be entered: where the fill starts.
pub open spec fn is_seed(l: Layout, passable: Seq<bool>, x: int, y: int, z: int) -> bool {
    l.inside(x, y, z) && y == l.ny - 1 && passable[l.idx(x, y, z)]
}

/// Node (x, y, z) is reached from a seed in at most `n` steps between
/// face-adjacent passable nodes.
pub open spec fn reach(l: Layout, passable: Seq<bool>, x: int, y: int, z: int, n: nat) -> bool
    decreases n,
{
    if n == 0 {
        is_seed(l, passable, x, y, z)
    } else {
        let m = (n - 1) as nat;
        ||| reach(l, passable, x, y, z, m)
        ||| l.inside(x, y, z) && passable[l.idx(x, y, z)] && {
            ||| reach(l, passable, x - 1, y, z, m)
            ||| reach(l, passable, x + 1, y, z, m)
            ||| reach(l, passable, x, y - 1, z, m)
            ||| reach(l, passable, x, y + 1, z, m)
            ||| reach(l, passable, x, y, z - 1, m)
            ||| reach(l, passable, x, y, z + 1, m)
        }
    }
}

/// Node (x, y, z) is reached from the top layer through passable nodes.
pub open spec fn reachable(l: Layout, passable: Seq<bool>, x: int, y: int, z: int) -> bool {
    exists|n: nat| reach(l, passable, x, y, z, n)
}

/// The neighbour at offset (dx, dy, dz), if it is a passable node, is marked.
pub open spec fn neighbour_marked(
    l: Layout,
    passable: Seq<bool>,
    marked: Seq<bool>,
    x: int,
    y: int,
    z: int,
) -> bool {
    l.inside(x, y, z) && passable[l.idx(x, y, z)] ==> marked[l.idx(x, y, z)]
}

/// Every passable face-neighbour of (x, y, z) is marked.
pub open spec fn closed_at(
    l: Layout,
    passable: Seq<bool>,
    marked: Seq<bool>,
    x: int,
    y: int,
    z: int,
) -> bool {
    &&& neighbour_marked(l, passable, marked, x - 1, y, z)
    &&& neighbour_marked(l, passable, marked, x + 1, y, z)
    &&& neighbour_marked(l, passable, marked, x, y - 1, z)
    &&& neighbour_marked(l, passable, marked, x, y + 1, z)
    &&& neighbour_marked(l, passable, marked, x, y, z - 1)
    &&& neighbour_marked(l, passable, marked, x, y, z + 1)
}

/// Number of `true`s.
pub open spec fn count_true(s: Seq<bool>) -> nat
    decreases s.len(),
{
    if s.len() == 0 {
        0
    } else {
        count_true(s.drop_last()) + if s.last() {
            1nat
        } else {
            0
        }
    }
}

proof fn lemma_count_true_le(s: Seq<bool>)
    ensures
        count_true(s) <= s.len(),
    decreases s.len(),
{
    if s.len() > 0 {
        lemma_count_true_le(s.drop_last());
    }
}

proof fn lemma_count_true_set(s: Seq<bool>, i: int)
    requires
        0 <= i < s.len(),
        !s[i],
    ensures
        count_true(s.update(i, true)) == count_true(s) + 1,
    decreases s.len(),
{
    let t = s.update(i, true);
    if i == s.len() - 1 {
        assert(t.drop_last() =~= s.drop_last());
    } else {
        assert(t.drop_last() =~= s.drop_last().update(i, true));
        lemma_count_true_set(s.drop_last(), i);
    }
}

/// The invariant of the fill: what is marked is passable and reached, each
/// seed is marked, and a marked node is either still to be processed (on the
/// stack) or has all its passable neighbours marked.
pub open spec fn fill_inv(
    l: Layout,
    passable: Seq<bool>,
    marked: Seq<bool>,
    stack: Seq<(u32, u32, u32)>,
) -> bool {
    &&& marked.len() == l.cells()
    &&& forall|i: int|
        0 <= i < stack.len() ==> l.inside(
            #[trigger] stack[i].0 as int,
            stack[i].1 as int,
            stack[i].2 as int,
        ) && marked[l.idx(stack[i].0 as int, stack[i].1 as int, stack[i].2 as int)]
    &&& forall|x: int, y: int, z: int|
        l.inside(x, y, z) && #[trigger] marked[l.idx(x, y, z)] ==> reachable(l, passable, x, y, z)
    &&& forall|x: int, y: int, z: int|
        l.inside(x, y, z) && #[trigger] marked[l.idx(x, y, z)] ==> (stack.contains(
            (x as u32, y as u32, z as u32),
        ) || closed_at(l, passable, marked, x, y, z))
}

/// Marks node (x, y, z) and pushes it on the stack if it is passable and not
/// marked yet; it is entered from a node reached in `n` steps, or is a seed.
fn visit(
    l: &Layout,
    passable: &Vec<bool>,
    marked: &mut Vec<bool>,
    stack: &mut Vec<(u32, u32, u32)>,
    x: u32,
    y: u32,
    z: u32,
)
    requires
        l.wf(),
        l.inside(x as int, y as int, z as int),
        passable@.len() == l.cells(),
        fill_inv(*l, passable@, old(marked)@, old(stack)@),
        passable@[l.idx(x as int, y as int, z as int)] ==> reachable(
            *l,
            passable@,
            x as int,
            y as int,
            z as int,
        ),
    ensures
        fill_inv(*l, passable@, final(marked)@, final(stack)@),
        final(marked)@[l.idx(x as int, y as int, z as int)] == (old(marked)@[l.idx(
            x as int,
            y as int,
            z as int,
        )] || passable@[l.idx(x as int, y as int, z as int)]),
        forall|i: int| 0 <= i < l.cells() && old(marked)@[i] ==> #[trigger] final(marked)@[i],
        old(stack)@.len() <= final(stack)@.len(),
        forall|i: int| 0 <= i < old(stack)@.len() ==> #[trigger] final(stack)@[i] == old(stack)@[i],
        count_true(final(marked)@) + old(stack)@.len() == count_true(old(marked)@) + final(stack)@.len(),
{
    let k = l.index(x, y, z);
    if passable[k] && !marked[k] {
        let ghost m0 = marked@;
        let ghost s0 = stack@;
        marked.set(k, true);
        stack.push((x, y, z));
        proof {
            lemma_count_true_set(m0, k as int);
            let m1 = marked@;
            let s1 = stack@;
            assert forall|i: int| 0 <= i < s1.len() implies l.inside(
                #[trigger] s1[i].0 as int,
                s1[i].1 as int,
                s1[i].2 as int,
            ) && m1[l.idx(s1[i].0 as int, s1[i].1 as int, s1[i].2 as int)] by {
                if i < s0.len() {
                    assert(s1[i] == s0[i]);
                    lemma_idx_bounds(*l, s1[i].0 as int, s1[i].1 as int, s1[i].2 as int);
                }
            }
            assert forall|a: int, b: int, c: int|
                l.inside(a, b, c) && #[trigger] m1[l.idx(a, b, c)] implies reachable(
                *l,
                passable@,
                a,
                b,
                c,
            ) by {
                lemma_idx_bounds(*l, a, b, c);
                if l.idx(a, b, c) == k {
                    lemma_idx_injective(*l, (a, b, c), (x as int, y as int, z as int));
                }
            }
            assert forall|a: int, b: int, c: int|
                l.inside(a, b, c) && #[trigger] m1[l.idx(a, b, c)] implies (s1.contains(
                (a as u32, b as u32, c as u32),
            ) || closed_at(*l, passable@, m1, a, b, c)) by {
                lemma_idx_bounds(*l, a, b, c);
                if l.idx(a, b, c) == k {
                    lemma_idx_injective(*l, (a, b, c), (x as int, y as int, z as int));
                    assert(s1[s0.len() as int] == (x, y, z));
                } else {
                    assert(m0[l.idx(a, b, c)]);
                    if s0.contains((a as u32, b as u32, c as u32)) {
                        let j = choose|j: int| 0 <= j < s0.len() && s0[j] == (a as u32, b as u32, c as u32);
                        assert(s1[j] == s0[j]);
                    } else {
                        lemma_closed_monotone(*l, passable@, m0, m1, a, b, c);
                    }
                }
            }
        }
    }
}

proof fn lemma_closed_monotone(
    l: Layout,
    passable: Seq<bool>,
    m0: Seq<bool>,
    m1: Seq<bool>,
    x: int,
    y: int,
    z: int,
)
    requires
        l.wf(),
        m0.len() == l.cells(),
        m1.len() == l.cells(),
        forall|i: int| 0 <= i < l.cells() && m0[i] ==> m1[i],
        closed_at(l, passable, m0, x, y, z),
    ensures
        closed_at(l, passable, m1, x, y, z),
{
    if l.inside(x - 1, y, z) {
        lemma_idx_bounds(l, x - 1, y, z);
    }
    if l.inside(x + 1, y, z) {
        lemma_idx_bounds(l, x + 1, y, z);
    }
    if l.inside(x, y - 1, z) {
        lemma_idx_bounds(l, x, y - 1, z);
    }
    if l.inside(x, y + 1, z) {
        lemma_idx_bounds(l, x, y + 1, z);
    }
    if l.inside(x, y, z - 1) {
        lemma_idx_bounds(l, x, y, z - 1);
    }
    if l.inside(x, y, z + 1) {
        lemma_idx_bounds(l, x, y, z + 1);
    }
}

/// A neighbour of a reached node that is passable is reached one step later.
proof fn lemma_reach_step(
    l: Layout,
    passable: Seq<bool>,
    x: int,
    y: int,
    z: int,
    a: int,
    b: int,
    c: int,
)
    requires
        reachable(l, passable, x, y, z),
        l.inside(a, b, c),
        passable[l.idx(a, b, c)],
        (a - x == 1 || x - a == 1) && b == y && c == z || (b - y == 1 || y - b == 1) && a == x && c
            == z || (c - z == 1 || z - c == 1) && a == x && b == y,
    ensures
        reachable(l, passable, a, b, c),
{
    let n = choose|n: nat| reach(l, passable, x, y, z, n);
    assert(reach(l, passable, a, b, c, n + 1));
}

/// The open water: the passable nodes reached from the top layer through
/// face-adjacent passable nodes (the fill that signs the distance field).
pub fn flood_fill(l: &Layout, passable: &Vec<bool>) -> (marked: Vec<bool>)
    requires
        l.wf(),
        passable@.len() == l.cells(),
    ensures
        marked@.len() == l.cells(),
        forall|x: int, y: int, z: int|
            l.inside(x, y, z) ==> (#[trigger] marked@[l.idx(x, y, z)] <==> reachable(
                *l,
                passable@,
                x,
                y,
                z,
            )),
{
    let n = l.count();
    let mut marked: Vec<bool> = Vec::new();
    let mut i: usize = 0;
    while i < n
        invariant
            n == l.cells(),
            i <= n,
            marked@.len() == i,
            forall|j: int| 0 <= j < i ==> !marked@[j],
        decreases n - i,
    {
        marked.push(false);
        i = i + 1;
    }
    let mut stack: Vec<(u32, u32, u32)> = Vec::new();
    proof {
        lemma_count_true_zero(marked@);
        assert forall|x: int, y: int, z: int|
            l.inside(x, y, z) && #[trigger] marked@[l.idx(x, y, z)] implies reachable(
            *l,
            passable@,
            x,
            y,
            z,
        ) by {
            lemma_idx_bounds(*l, x, y, z);
        }
        assert forall|x: int, y: int, z: int|
            l.inside(x, y, z) && #[trigger] marked@[l.idx(x, y, z)] implies (stack@.contains(
            (x as u32, y as u32, z as u32),
        ) || closed_at(*l, passable@, marked@, x, y, z)) by {
            lemma_idx_bounds(*l, x, y, z);
        }
    }
    // The seeds: every passable node of the top layer.
    let top = l.ny - 1;
    let mut z: u32 = 0;
    while z < l.nz
        invariant
            l.wf(),
            passable@.len() == l.cells(),
            top == l.ny - 1,
            z <= l.nz,
            fill_inv(*l, passable@, marked@, stack@),
            count_true(marked@) == stack@.len(),
            forall|a: int, c: int|
                0 <= a < l.nx && 0 <= c < z && passable@[l.idx(a, top as int, c)] ==> #[trigger] marked@[l.idx(
                    a,
                    top as int,
                    c,
                )],
        decreases l.nz - z,
    {
        let mut x: u32 = 0;
        while x < l.nx
            invariant
                l.wf(),
                passable@.len() == l.cells(),
                top == l.ny - 1,
                z < l.nz,
                x <= l.nx,
                fill_inv(*l, passable@, marked@, stack@),
                count_true(marked@) == stack@.len(),
                forall|a: int, c: int|
                    (0 <= a < l.nx && 0 <= c < z || 0 <= a < x && c == z) && passable@[l.idx(
                        a,
                        top as int,
                        c,
                    )] ==> #[trigger] marked@[l.idx(a, top as int, c)],
            decreases l.nx - x,
        {
            proof {
                if passable@[l.idx(x as int, top as int, z as int)] {
                    assert(reach(*l, passable@, x as int, top as int, z as int, 0));
                }
            }
            let ghost m0 = marked@;
            visit(l, passable, &mut marked, &mut stack, x, top, z);
            proof {
                assert forall|a: int, c: int|
                    (0 <= a < l.nx && 0 <= c < z || 0 <= a < x + 1 && c == z) && passable@[l.idx(
                        a,
                        top as int,
                        c,
                    )] implies #[trigger] marked@[l.idx(a, top as int, c)] by {
                    lemma_idx_bounds(*l, a, top as int, c);
                    if !(a == x && c == z) {
                        assert(m0[l.idx(a, top as int, c)]);
                    }
                }
            }
            x = x + 1;
        }
        z = z + 1;
    }
    // Spread through the passable nodes.
    proof {
        lemma_count_true_le(marked@);
    }
    while stack.len() > 0
        invariant
            l.wf(),
            passable@.len() == l.cells(),
            top == l.ny - 1,
            fill_inv(*l, passable@, marked@, stack@),
            forall|a: int, c: int|
                0 <= a < l.nx && 0 <= c < l.nz && passable@[l.idx(a, top as int, c)] ==> #[trigger] marked@[l.idx(
                    a,
                    top as int,
                    c,
                )],
            count_true(marked@) <= l.cells(),
        decreases (l.cells() - count_true(marked@)) * 7 + stack@.len(),
    {
        let ghost s_before = stack@;
        let ghost m_before = marked@;
        let c = stack.pop().unwrap();
        let (cx, cy, cz) = c;
        proof {
            assert(c == s_before[s_before.len() - 1]);
            assert(stack@ =~= s_before.drop_last());
            // `fill_inv` for the shorter stack, except at `c`
            lemma_idx_bounds(*l, cx as int, cy as int, cz as int);
        }
        assert(reachable(*l, passable@, cx as int, cy as int, cz as int));
        proof {
            lemma_fill_inv_pop(*l, passable@, marked@, s_before, c);
        }
        expand(l, passable, &mut marked, &mut stack, c);
        assert((l.cells() - count_true(marked@)) * 7 + stack@.len() < (l.cells() - count_true(m_before)) * 7 + s_before.len());
        proof {
            lemma_fill_inv_close(*l, passable@, marked@, stack@, c);
            assert forall|a: int, cc: int|
                0 <= a < l.nx && 0 <= cc < l.nz && passable@[l.idx(a, top as int, cc)] implies #[trigger] marked@[l.idx(
                a,
                top as int,
                cc,
            )] by {
                lemma_idx_bounds(*l, a, top as int, cc);
                assert(m_before[l.idx(a, top as int, cc)]);
            }
        }
    }
    proof {
        assert forall|x: int, y: int, z: int|
            l.inside(x, y, z) implies (#[trigger] marked@[l.idx(x, y, z)] <==> reachable(
            *l,
            passable@,
            x,
            y,
            z,
        )) by {
            if reachable(*l, passable@, x, y, z) {
                let k = choose|k: nat| reach(*l, passable@, x, y, z, k);
                lemma_closed_complete(*l, passable@, marked@, x, y, z, k);
            }
        }
    }
    marked
}

proof fn lemma_count_true_zero(s: Seq<bool>)
    requires
        forall|j: int| 0 <= j < s.len() ==> !s[j],
    ensures
        count_true(s) == 0,
    decreases s.len(),
{
    if s.len() > 0 {
        lemma_count_true_zero(s.drop_last());
    }
}

proof fn lemma_step_if_passable(
    l: Layout,
    passable: Seq<bool>,
    x: int,
    y: int,
    z: int,
    a: int,
    b: int,
    c: int,
)
    requires
        reachable(l, passable, x, y, z),
        l.inside(a, b, c),
        (a - x == 1 || x - a == 1) && b == y && c == z || (b - y == 1 || y - b == 1) && a == x && c
            == z || (c - z == 1 || z - c == 1) && a == x && b == y,
    ensures
        passable[l.idx(a, b, c)] ==> reachable(l, passable, a, b, c),
{
    if passable[l.idx(a, b, c)] {
        lemma_reach_step(l, passable, x, y, z, a, b, c);
    }
}

/// The fill invariant, except that node `c` (just popped) is neither on the
/// stack nor yet known to be closed.
pub open spec fn fill_inv_except(
    l: Layout,
    passable: Seq<bool>,
    marked: Seq<bool>,
    stack: Seq<(u32, u32, u32)>,
    c: (u32, u32, u32),
) -> bool {
    &&& marked.len() == l.cells()
    &&& forall|i: int|
        0 <= i < stack.len() ==> l.inside(
            #[trigger] stack[i].0 as int,
            stack[i].1 as int,
            stack[i].2 as int,
        ) && marked[l.idx(stack[i].0 as int, stack[i].1 as int, stack[i].2 as int)]
    &&& forall|x: int, y: int, z: int|
        l.inside(x, y, z) && #[trigger] marked[l.idx(x, y, z)] ==> reachable(l, passable, x, y, z)
    &&& forall|x: int, y: int, z: int|
        l.inside(x, y, z) && #[trigger] marked[l.idx(x, y, z)] ==> (stack.contains(
            (x as u32, y as u32, z as u32),
        ) || closed_at(l, passable, marked, x, y, z) || (x as u32, y as u32, z as u32) == c)
    &&& l.inside(c.0 as int, c.1 as int, c.2 as int)
    &&& marked[l.idx(c.0 as int, c.1 as int, c.2 as int)]
}

proof fn lemma_fill_inv_pop(
    l: Layout,
    passable: Seq<bool>,
    marked: Seq<bool>,
    stack: Seq<(u32, u32, u32)>,
    c: (u32, u32, u32),
)
    requires
        l.wf(),
        fill_inv(l, passable, marked, stack),
        stack.len() > 0,
        c == stack[stack.len() - 1],
    ensures
        fill_inv_except(l, passable, marked, stack.drop_last(), c),
{
    let s = stack.drop_last();
    assert forall|i: int| 0 <= i < s.len() implies l.inside(
        #[trigger] s[i].0 as int,
        s[i].1 as int,
        s[i].2 as int,
    ) && marked[l.idx(s[i].0 as int, s[i].1 as int, s[i].2 as int)] by {
        assert(s[i] == stack[i]);
    }
    assert forall|x: int, y: int, z: int|
        l.inside(x, y, z) && #[trigger] marked[l.idx(x, y, z)] implies (s.contains(
        (x as u32, y as u32, z as u32),
    ) || closed_at(l, passable, marked, x, y, z) || (x as u32, y as u32, z as u32) == c) by {
        if stack.contains((x as u32, y as u32, z as u32)) && (x as u32, y as u32, z as u32) != c {
            let j = choose|j: int| 0 <= j < stack.len() && stack[j] == (x as u32, y as u32, z as u32);
            assert(j < s.len());
            assert(s[j] == stack[j]);
        }
    }
    assert(stack[stack.len() - 1] == c);
}

proof fn lemma_fill_inv_close(
    l: Layout,
    passable: Seq<bool>,
    marked: Seq<bool>,
    stack: Seq<(u32, u32, u32)>,
    c: (u32, u32, u32),
)
    requires
        l.wf(),
        fill_inv_except(l, passable, marked, stack, c),
        closed_at(l, passable, marked, c.0 as int, c.1 as int, c.2 as int),
    ensures
        fill_inv(l, passable, marked, stack),
{
    assert forall|x: int, y: int, z: int|
        l.inside(x, y, z) && #[trigger] marked[l.idx(x, y, z)] implies (stack.contains(
        (x as u32, y as u32, z as u32),
    ) || closed_at(l, passable, marked, x, y, z)) by {
        if (x as u32, y as u32, z as u32) == c {
            assert(x == c.0 as int && y == c.1 as int && z == c.2 as int);
        }
    }
}

/// `visit` while node `c` is being processed.
fn visit_kept(
    l: &Layout,
    passable: &Vec<bool>,
    marked: &mut Vec<bool>,
    stack: &mut Vec<(u32, u32, u32)>,
    x: u32,
    y: u32,
    z: u32,
    c: (u32, u32, u32),
)
    requires
        l.wf(),
        l.inside(x as int, y as int, z as int),
        passable@.len() == l.cells(),
        fill_inv_except(*l, passable@, old(marked)@, old(stack)@, c),
        passable@[l.idx(x as int, y as int, z as int)] ==> reachable(
            *l,
            passable@,
            x as int,
            y as int,
            z as int,
        ),
        count_true(old(marked)@) <= l.cells(),
    ensures
        fill_inv_except(*l, passable@, final(marked)@, final(stack)@, c),
        passable@[l.idx(x as int, y as int, z as int)] ==> final(marked)@[l.idx(
            x as int,
            y as int,
            z as int,
        )],
        forall|i: int| 0 <= i < l.cells() && old(marked)@[i] ==> #[trigger] final(marked)@[i],
        count_true(final(marked)@) + old(stack)@.len() == count_true(old(marked)@) + final(stack)@.len(),
        old(stack)@.len() <= final(stack)@.len(),
        count_true(final(marked)@) <= l.cells(),
{
    let k = l.index(x, y, z);
    if passable[k] && !marked[k] {
        let ghost m0 = marked@;
        let ghost s0 = stack@;
        marked.set(k, true);
        stack.push((x, y, z));
        proof {
            lemma_count_true_set(m0, k as int);
            lemma_count_true_le(marked@);
            let m1 = marked@;
            let s1 = stack@;
            assert forall|i: int| 0 <= i < s1.len() implies l.inside(
                #[trigger] s1[i].0 as int,
                s1[i].1 as int,
                s1[i].2 as int,
            ) && m1[l.idx(s1[i].0 as int, s1[i].1 as int, s1[i].2 as int)] by {
                if i < s0.len() {
                    assert(s1[i] == s0[i]);
                    lemma_idx_bounds(*l, s1[i].0 as int, s1[i].1 as int, s1[i].2 as int);
                }
            }
            assert forall|a: int, b: int, cc: int|
                l.inside(a, b, cc) && #[trigger] m1[l.idx(a, b, cc)] implies reachable(
                *l,
                passable@,
                a,
                b,
                cc,
            ) by {
                lemma_idx_bounds(*l, a, b, cc);
                if l.idx(a, b, cc) == k {
                    lemma_idx_injective(*l, (a, b, cc), (x as int, y as int, z as int));
                }
            }
            assert forall|a: int, b: int, cc: int|
                l.inside(a, b, cc) && #[trigger] m1[l.idx(a, b, cc)] implies (s1.contains(
                (a as u32, b as u32, cc as u32),
            ) || closed_at(*l, passable@, m1, a, b, cc) || (a as u32, b as u32, cc as u32) == c) by {
                lemma_idx_bounds(*l, a, b, cc);
                if l.idx(a, b, cc) == k {
                    lemma_idx_injective(*l, (a, b, cc), (x as int, y as int, z as int));
                    assert(s1[s0.len() as int] == (x, y, z));
                } else {
                    assert(m0[l.idx(a, b, cc)]);
                    if s0.contains((a as u32, b as u32, cc as u32)) {
                        let j = choose|j: int| 0 <= j < s0.len() && s0[j] == (a as u32, b as u32, cc as u32);
                        assert(s1[j] == s0[j]);
                    } else if (a as u32, b as u32, cc as u32) != c {
                        lemma_closed_monotone(*l, passable@, m0, m1, a, b, cc);
                    }
                }
            }
            lemma_idx_bounds(*l, c.0 as int, c.1 as int, c.2 as int);
        }
    }
}

/// Visits the six face-neighbours of node `c`, which has just been popped.
fn expand(
    l: &Layout,
    passable: &Vec<bool>,
    marked: &mut Vec<bool>,
    stack: &mut Vec<(u32, u32, u32)>,
    c: (u32, u32, u32),
)
    requires
        l.wf(),
        passable@.len() == l.cells(),
        fill_inv_except(*l, passable@, old(marked)@, old(stack)@, c),
        reachable(*l, passable@, c.0 as int, c.1 as int, c.2 as int),
        count_true(old(marked)@) <= l.cells(),
    ensures
        fill_inv_except(*l, passable@, final(marked)@, final(stack)@, c),
        closed_at(*l, passable@, final(marked)@, c.0 as int, c.1 as int, c.2 as int),
        forall|i: int| 0 <= i < l.cells() && old(marked)@[i] ==> #[trigger] final(marked)@[i],
        count_true(final(marked)@) + old(stack)@.len() == count_true(old(marked)@) + final(stack)@.len(),
        old(stack)@.len() <= final(stack)@.len(),
        count_true(final(marked)@) <= l.cells(),
{
    let (cx, cy, cz) = c;
    let ghost p = passable@;
    let ghost (x, y, z) = (cx as int, cy as int, cz as int);
    let ghost m0 = marked@;
    if cx > 0 {
        proof {
            lemma_step_if_passable(*l, p, x, y, z, x - 1, y, z);
        }
        visit_kept(l, passable, marked, stack, cx - 1, cy, cz, c);
    }
    let ghost m1 = marked@;
    assert(neighbour_marked(*l, p, m1, x - 1, y, z));
    if cx + 1 < l.nx {
        proof {
            lemma_step_if_passable(*l, p, x, y, z, x + 1, y, z);
        }
        visit_kept(l, passable, marked, stack, cx + 1, cy, cz, c);
    }
    let ghost m2 = marked@;
    proof {
        lemma_neighbour_kept(*l, p, m1, m2, x - 1, y, z);
    }
    assert(neighbour_marked(*l, p, m2, x + 1, y, z));
    if cy > 0 {
        proof {
            lemma_step_if_passable(*l, p, x, y, z, x, y - 1, z);
        }
        visit_kept(l, passable, marked, stack, cx, cy - 1, cz, c);
    }
    let ghost m3 = marked@;
    proof {
        lemma_neighbour_kept(*l, p, m2, m3, x - 1, y, z);
        lemma_neighbour_kept(*l, p, m2, m3, x + 1, y, z);
    }
    assert(neighbour_marked(*l, p, m3, x, y - 1, z));
    if cy + 1 < l.ny {
        proof {
            lemma_step_if_passable(*l, p, x, y, z, x, y + 1, z);
        }
        visit_kept(l, passable, marked, stack, cx, cy + 1, cz, c);
    }
    let ghost m4 = marked@;
    proof {
        lemma_neighbour_kept(*l, p, m3, m4, x - 1, y, z);
        lemma_neighbour_kept(*l, p, m3, m4, x + 1, y, z);
        lemma_neighbour_kept(*l, p, m3, m4, x, y - 1, z);
    }
    assert(neighbour_marked(*l, p, m4, x, y + 1, z));
    if cz > 0 {
        proof {
            lemma_step_if_passable(*l, p, x, y, z, x, y, z - 1);
        }
        visit_kept(l, passable, marked, stack, cx, cy, cz - 1, c);
    }
    let ghost m5 = marked@;
    proof {
        lemma_neighbour_kept(*l, p, m4, m5, x - 1, y, z);
        lemma_neighbour_kept(*l, p, m4, m5, x + 1, y, z);
        lemma_neighbour_kept(*l, p, m4, m5, x, y - 1, z);
        lemma_neighbour_kept(*l, p, m4, m5, x, y + 1, z);
    }
    assert(neighbour_marked(*l, p, m5, x, y, z - 1));
    if cz + 1 < l.nz {
        proof {
            lemma_step_if_passable(*l, p, x, y, z, x, y, z + 1);
        }
        visit_kept(l, passable, marked, stack, cx, cy, cz + 1, c);
    }
    proof {
        lemma_neighbour_kept(*l, p, m5, marked@, x - 1, y, z);
        lemma_neighbour_kept(*l, p, m5, marked@, x + 1, y, z);
        lemma_neighbour_kept(*l, p, m5, marked@, x, y - 1, z);
        lemma_neighbour_kept(*l, p, m5, marked@, x, y + 1, z);
        lemma_neighbour_kept(*l, p, m5, marked@, x, y, z - 1);
        assert(neighbour_marked(*l, p, marked@, x, y, z + 1));
        assert forall|i: int| 0 <= i < l.cells() && m0[i] implies #[trigger] marked@[i] by {
            assert(m1[i]);
            assert(m2[i]);
            assert(m3[i]);
            assert(m4[i]);
            assert(m5[i]);
        }
    }
}

/// A neighbour's mark survives a step that keeps every mark.
proof fn lemma_neighbour_kept(
    l: Layout,
    passable: Seq<bool>,
    m0: Seq<bool>,
    m1: Seq<bool>,
    x: int,
    y: int,
    z: int,
)
    requires
        l.wf(),
        forall|i: int| 0 <= i < l.cells() && m0[i] ==> #[trigger] m1[i],
        neighbour_marked(l, passable, m0, x, y, z),
    ensures
        neighbour_marked(l, passable, m1, x, y, z),
{
    if l.inside(x, y, z) {
        lemma_idx_bounds(l, x, y, z);
    }
}

/// Marks closed under passable neighbours, with every seed marked, cover
/// everything reached.
proof fn lemma_closed_complete(
    l: Layout,
    passable: Seq<bool>,
    marked: Seq<bool>,
    x: int,
    y: int,
    z: int,
    n: nat,
)
    requires
        l.wf(),
        fill_inv(l, passable, marked, seq![]),
        forall|a: int, c: int|
            0 <= a < l.nx && 0 <= c < l.nz && passable[l.idx(a, l.ny - 1, c)] ==> #[trigger] marked[l.idx(
                a,
                l.ny - 1,
                c,
            )],
        reach(l, passable, x, y, z, n),
    ensures
        l.inside(x, y, z),
        marked[l.idx(x, y, z)],
    decreases n,
{
    if n == 0 {
    } else {
        let m = (n - 1) as nat;
        if reach(l, passable, x, y, z, m) {
            lemma_closed_complete(l, passable, marked, x, y, z, m);
        } else {
            let e: Seq<(u32, u32, u32)> = seq![];
            if reach(l, passable, x - 1, y, z, m) {
                lemma_closed_complete(l, passable, marked, x - 1, y, z, m);
                assert(!e.contains(((x - 1) as u32, y as u32, z as u32)));
            } else if reach(l, passable, x + 1, y, z, m) {
                lemma_closed_complete(l, passable, marked, x + 1, y, z, m);
                assert(!e.contains(((x + 1) as u32, y as u32, z as u32)));
            } else if reach(l, passable, x, y - 1, z, m) {
                lemma_closed_complete(l, passable, marked, x, y - 1, z, m);
                assert(!e.contains((x as u32, (y - 1) as u32, z as u32)));
            } else if reach(l, passable, x, y + 1, z, m) {
                lemma_closed_complete(l, passable, marked, x, y + 1, z, m);
                assert(!e.contains((x as u32, (y + 1) as u32, z as u32)));
            } else if reach(l, passable, x, y, z - 1, m) {
                lemma_closed_complete(l, passable, marked, x, y, z - 1, m);
                assert(!e.contains((x as u32, y as u32, (z - 1) as u32)));
            } else {
                lemma_closed_complete(l, passable, marked, x, y, z + 1, m);
                assert(!e.contains((x as u32, y as u32, (z + 1) as u32)));
            }
        }
    }
}

// ---------------------------------------------------------------------------
// Neighbourhoods of the propagation sweeps
// ---------------------------------------------------------------------------

/// Offset number `t` of the 3x3x3 block, in raster order (x fastest).
pub open spec fn block_offset(t: int) -> (i32, i32, i32) {
    ((t % 3 - 1) as i32, ((t / 3) % 3 - 1) as i32, (t / 9 - 1) as i32)
}

/// (dz, dy, dx) comes before (0, 0, 0) in lexicographic order.
pub open spec fn raster_before(o: (i32, i32, i32)) -> bool {
    o.2 < 0 || o.2 == 0 && o.1 < 0 || o.2 == 0 && o.1 == 0 && o.0 < 0
}

/// The half of the neighbourhood that comes before a node in raster order
/// (z slowest, x fastest), as (dx, dy, dz): what a forward sweep has
/// already visited.
pub fn previous_offsets() -> (offsets: Vec<(i32, i32, i32)>)
    ensures
        offsets@.len() == 13,
        forall|k: int| 0 <= k < 13 ==> #[trigger] offsets@[k] == block_offset(k),
        forall|k: int| 0 <= k < 13 ==> raster_before(#[trigger] block_offset(k)),
{
    let mut offsets: Vec<(i32, i32, i32)> = Vec::new();
    let mut dz: i32 = -1;
    while dz <= 1
        invariant
            -1 <= dz <= 2,
            offsets@.len() == if dz <= 0 { 9 * (dz + 1) } else { 13 },
            forall|k: int| 0 <= k < offsets@.len() ==> #[trigger] offsets@[k] == block_offset(k),
        decreases 2 - dz,
    {
        let mut dy: i32 = -1;
        while dy <= 1
            invariant
                -1 <= dz <= 1,
                -1 <= dy <= 2,
                offsets@.len() == if dz < 0 {
                    9 * (dz + 1) + 3 * (dy + 1)
                } else if dz == 0 && dy <= 0 {
                    9 + 3 * (dy + 1)
                } else if dz == 0 {
                    13
                } else {
                    13
                },
                forall|k: int| 0 <= k < offsets@.len() ==> #[trigger] offsets@[k] == block_offset(k),
            decreases 2 - dy,
        {
            let mut dx: i32 = -1;
            while dx <= 1
                invariant
                    -1 <= dz <= 1,
                    -1 <= dy <= 1,
                    -1 <= dx <= 2,
                    offsets@.len() == if dz < 0 || dz == 0 && dy < 0 {
                        9 * (dz + 1) + 3 * (dy + 1) + (dx + 1)
                    } else if dz == 0 && dy == 0 && dx <= 0 {
                        12 + (dx + 1)
                    } else {
                        13
                    },
                    forall|k: int| 0 <= k < offsets@.len() ==> #[trigger] offsets@[k] == block_offset(k),
                decreases 2 - dx,
            {
                if dz < 0 || dz == 0 && dy < 0 || dz == 0 && dy == 0 && dx < 0 {
                    let ghost t = 9 * (dz + 1) + 3 * (dy + 1) + (dx + 1);
                    assert(block_offset(t) == (dx, dy, dz)) by {
                        vstd::arithmetic::div_mod::lemma_fundamental_div_mod_converse(t, 3, 3 * (dz + 1) + (dy + 1), dx + 1);
                        vstd::arithmetic::div_mod::lemma_fundamental_div_mod_converse(3 * (dz + 1) + (dy + 1), 3, dz + 1, dy + 1);
                        vstd::arithmetic::div_mod::lemma_fundamental_div_mod_converse(t, 9, dz + 1, 3 * (dy + 1) + (dx + 1));
                    }
                    offsets.push((dx, dy, dz));
                }
                dx = dx + 1;
            }
            dy = dy + 1;
        }
        dz = dz + 1;
    }
    offsets
}

/// The previous half is complete: every offset of the 3x3x3 block that comes
/// before the centre in raster order is among the first 13 block offsets.
pub proof fn lemma_previous_offsets_complete(dx: i32, dy: i32, dz: i32)
    requires
        -1 <= dx <= 1,
        -1 <= dy <= 1,
        -1 <= dz <= 1,
        raster_before((dx, dy, dz)),
    ensures
        exists|k: int| 0 <= k < 13 && #[trigger] block_offset(k) == (dx, dy, dz),
{
    let t = 9 * (dz + 1) + 3 * (dy + 1) + (dx + 1);
    vstd::arithmetic::div_mod::lemma_fundamental_div_mod_converse(t, 3, 3 * (dz + 1) + (dy + 1), dx + 1);
    vstd::arithmetic::div_mod::lemma_fundamental_div_mod_converse(3 * (dz + 1) + (dy + 1), 3, dz + 1, dy + 1);
    vstd::arithmetic::div_mod::lemma_fundamental_div_mod_converse(t, 9, dz + 1, 3 * (dy + 1) + (dx + 1));
    assert(block_offset(t) == (dx, dy, dz));
}

/// The node at offset `o` from (x, y, z), if it is in the grid.
pub open spec fn spec_neighbour(l: Layout, x: int, y: int, z: int, o: (i32, i32, i32)) -> Option<usize> {
    if l.inside(x + o.0, y + o.1, z + o.2) {
        Some(l.idx(x + o.0, y + o.1, z + o.2) as usize)
    } else {
        None
    }
}

/// The number of the node at offset `o` from node (x, y, z), if that node is
/// in the grid.
pub fn neighbour(l: &Layout, x: u32, y: u32, z: u32, o: (i32, i32, i32)) -> (k: Option<usize>)
    requires
        l.wf(),
        l.inside(x as int, y as int, z as int),
    ensures
        k == spec_neighbour(*l, x as int, y as int, z as int, o),
{
    let qx: i64 = x as i64 + o.0 as i64;
    let qy: i64 = y as i64 + o.1 as i64;
    let qz: i64 = z as i64 + o.2 as i64;
    if qx < 0 || qy < 0 || qz < 0 || qx >= l.nx as i64 || qy >= l.ny as i64 || qz >= l.nz as i64 {
        None
    } else {
        Some(l.index(qx as u32, qy as u32, qz as u32))
    }
}

} // verus!
