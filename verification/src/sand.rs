//! The sand bed's lattice: `(nx + 1) x (nz + 1)` points, row by row, and the
//! ring of its border points along which the skirt (the cross-section seen
//! through the glass) is drawn.
use vstd::prelude::*;

verus! {

/// The number of lattice point (i, j): column `i` of row `j`.
pub open spec fn lattice_index(nx: int, i: int, j: int) -> int {
    j * (nx + 1) + i
}

/// The lattice point at position `k` of the border ring: along the first
/// row, up the last column, back along the last row, down the first column,
/// each corner once.
pub open spec fn ring_cell(nx: int, nz: int, k: int) -> (int, int) {
    if k <= nx {
        (k, 0)
    } else if k <= nx + nz {
        (nx, k - nx)
    } else if k <= 2 * nx + nz {
        (2 * nx + nz - k, nz)
    } else {
        (0, 2 * nx + 2 * nz - k)
    }
}

/// Lattice point (i, j) lies on the border.
pub open spec fn on_border(nx: int, nz: int, i: int, j: int) -> bool {
    0 <= i <= nx && 0 <= j <= nz && (i == 0 || i == nx || j == 0 || j == nz)
}

/// Length of the border ring.
pub open spec fn ring_len(nx: int, nz: int) -> int {
    2 * nx + 2 * nz
}

/// The border ring of the lattice, as lattice point numbers.
pub fn border_ring(nx: usize, nz: usize) -> (ring: Vec<usize>)
    requires
        1 <= nx,
        1 <= nz,
        (nx + 1) * (nz + 1) <= usize::MAX,
    ensures
        ring@.len() == ring_len(nx as int, nz as int),
        forall|k: int|
            0 <= k < ring@.len() ==> #[trigger] ring@[k] == lattice_index(
                nx as int,
                ring_cell(nx as int, nz as int, k).0,
                ring_cell(nx as int, nz as int, k).1,
            ),
{
    let ghost n = nx as int;
    let ghost m = nz as int;
    assert(0 <= (nz as int) * (n + 1) <= (n + 1) * (m + 1) && n + 1 <= (n + 1) * (m + 1) && m + 1 <= (n + 1) * (m + 1)) by (nonlinear_arith)
        requires
            n >= 1,
            m >= 1,
            m == nz as int,
    ;
    let mut ring: Vec<usize> = Vec::new();
    let mut i: usize = 0;
    while i <= nx
        invariant
            n == nx,
            m == nz,
            1 <= nx,
            1 <= nz,
            0 <= (nz as int) * (n + 1) <= (n + 1) * (m + 1) <= usize::MAX,
            n + 1 <= usize::MAX,
            m + 1 <= usize::MAX,
            i <= nx + 1,
            ring@.len() == i,
            forall|k: int|
                0 <= k < ring@.len() ==> #[trigger] ring@[k] == lattice_index(
                    n,
                    ring_cell(n, m, k).0,
                    ring_cell(n, m, k).1,
                ),
        decreases nx + 1 - i,
    {
        ring.push(i);
        i = i + 1;
    }
    let mut j: usize = 1;
    while j <= nz
        invariant
            n == nx,
            m == nz,
            1 <= nx,
            1 <= nz,
            0 <= (nz as int) * (n + 1) <= (n + 1) * (m + 1) <= usize::MAX,
            n + 1 <= usize::MAX,
            m + 1 <= usize::MAX,
            1 <= j <= nz + 1,
            ring@.len() == nx + j,
            forall|k: int|
                0 <= k < ring@.len() ==> #[trigger] ring@[k] == lattice_index(
                    n,
                    ring_cell(n, m, k).0,
                    ring_cell(n, m, k).1,
                ),
        decreases nz + 1 - j,
    {
        assert(0 <= (j as int) * (n + 1) <= (nz as int) * (n + 1)) by (nonlinear_arith)
            requires
                1 <= j <= nz,
                n >= 1,
        ;
        assert((j as int) * (n + 1) + n < (n + 1) * (m + 1)) by (nonlinear_arith)
            requires
                1 <= j <= m,
                n >= 1,
        ;
        ring.push(j * (nx + 1) + nx);
        j = j + 1;
    }
    let top = nz * (nx + 1);
    let mut i: usize = nx;
    while i > 0
        invariant
            n == nx,
            m == nz,
            1 <= nx,
            1 <= nz,
            top == (nz as int) * (n + 1),
            0 <= (nz as int) * (n + 1) <= (n + 1) * (m + 1) <= usize::MAX,
            n + 1 <= usize::MAX,
            m + 1 <= usize::MAX,
            i <= nx,
            ring@.len() == 2 * nx + nz + 1 - i,
            forall|k: int|
                0 <= k < ring@.len() ==> #[trigger] ring@[k] == lattice_index(
                    n,
                    ring_cell(n, m, k).0,
                    ring_cell(n, m, k).1,
                ),
        decreases i,
    {
        assert((nz as int) * (n + 1) + n < (n + 1) * (m + 1)) by (nonlinear_arith)
            requires
                n >= 1,
                m == nz as int,
        ;
        i = i - 1;
        ring.push(top + i);
    }
    let mut j: usize = nz;
    while j > 1
        invariant
            n == nx,
            m == nz,
            1 <= nx,
            1 <= nz,
            0 <= (nz as int) * (n + 1) <= (n + 1) * (m + 1) <= usize::MAX,
            n + 1 <= usize::MAX,
            m + 1 <= usize::MAX,
            1 <= j <= nz,
            ring@.len() == 2 * nx + 2 * nz + 1 - j,
            forall|k: int|
                0 <= k < ring@.len() ==> #[trigger] ring@[k] == lattice_index(
                    n,
                    ring_cell(n, m, k).0,
                    ring_cell(n, m, k).1,
                ),
        decreases j,
    {
        j = j - 1;
        assert(0 <= (j as int) * (n + 1) <= (nz as int) * (n + 1)) by (nonlinear_arith)
            requires
                1 <= j <= nz,
                n >= 1,
        ;
        assert((j as int) * (n + 1) == j * (nx + 1));
        ring.push(j * (nx + 1));
    }
    ring
}

/// The border ring is a closed loop around the lattice: each of its points
/// is on the border, no point comes twice, every border point comes, and
/// each point (the last one too, back to the first) is a neighbour of the
/// next along a row or a column.
pub proof fn lemma_ring_is_border_loop(nx: int, nz: int)
    requires
        1 <= nx,
        1 <= nz,
    ensures
        forall|k: int|
            0 <= k < ring_len(nx, nz) ==> {
                let (i, j) = #[trigger] ring_cell(nx, nz, k);
                on_border(nx, nz, i, j)
            },
        forall|a: int, b: int|
            0 <= a < ring_len(nx, nz) && 0 <= b < ring_len(nx, nz) && a != b ==> #[trigger] ring_cell(
                nx,
                nz,
                a,
            ) != #[trigger] ring_cell(nx, nz, b),
        forall|i: int, j: int|
            #[trigger] on_border(nx, nz, i, j) ==> exists|k: int|
                0 <= k < ring_len(nx, nz) && #[trigger] ring_cell(nx, nz, k) == (i, j),
        forall|k: int|
            0 <= k < ring_len(nx, nz) ==> #[trigger] ring_step(nx, nz, k),
{
    assert forall|k: int| 0 <= k < ring_len(nx, nz) implies {
        let (i, j) = #[trigger] ring_cell(nx, nz, k);
        on_border(nx, nz, i, j)
    } by {}
    assert forall|a: int, b: int|
        0 <= a < ring_len(nx, nz) && 0 <= b < ring_len(nx, nz) && a != b implies #[trigger] ring_cell(
        nx,
        nz,
        a,
    ) != #[trigger] ring_cell(nx, nz, b) by {
        lemma_ring_cell_distinct(nx, nz, a, b);
    }
    assert forall|i: int, j: int| #[trigger] on_border(nx, nz, i, j) implies exists|k: int|
        0 <= k < ring_len(nx, nz) && #[trigger] ring_cell(nx, nz, k) == (i, j) by {
        if j == 0 {
            assert(ring_cell(nx, nz, i) == (i, j));
        } else if i == nx {
            assert(ring_cell(nx, nz, nx + j) == (i, j));
        } else if j == nz {
            assert(ring_cell(nx, nz, 2 * nx + nz - i) == (i, j));
        } else {
            assert(ring_cell(nx, nz, 2 * nx + 2 * nz - j) == (i, j));
        }
    }
    assert forall|k: int| 0 <= k < ring_len(nx, nz) implies #[trigger] ring_step(nx, nz, k) by {
        let l = ring_len(nx, nz);
        if k + 1 < l {
            vstd::arithmetic::div_mod::lemma_fundamental_div_mod_converse(k + 1, l, 0, k + 1);
        } else {
            vstd::arithmetic::div_mod::lemma_fundamental_div_mod_converse(k + 1, l, 1, 0);
        }
    }
}

/// Position `k` of the ring and the next one (the first after the last) are
/// neighbours along a row or a column.
pub open spec fn ring_step(nx: int, nz: int, k: int) -> bool {
    let (i0, j0) = ring_cell(nx, nz, k);
    let (i1, j1) = ring_cell(nx, nz, (k + 1) % ring_len(nx, nz));
    (i0 == i1 && (j0 - j1 == 1 || j1 - j0 == 1)) || (j0 == j1 && (i0 - i1 == 1 || i1 - i0 == 1))
}

proof fn lemma_ring_cell_distinct(nx: int, nz: int, a: int, b: int)
    requires
        1 <= nx,
        1 <= nz,
        0 <= a < ring_len(nx, nz),
        0 <= b < ring_len(nx, nz),
        a != b,
    ensures
        ring_cell(nx, nz, a) != ring_cell(nx, nz, b),
{
}

/// Distinct lattice points have distinct numbers.
pub proof fn lemma_lattice_index_injective(nx: int, a: (int, int), b: (int, int))
    requires
        0 <= a.0 <= nx,
        0 <= b.0 <= nx,
        0 <= a.1,
        0 <= b.1,
        lattice_index(nx, a.0, a.1) == lattice_index(nx, b.0, b.1),
    ensures
        a == b,
{
    vstd::arithmetic::div_mod::lemma_fundamental_div_mod_converse(lattice_index(nx, a.0, a.1), nx + 1, a.1, a.0);
    vstd::arithmetic::div_mod::lemma_fundamental_div_mod_converse(lattice_index(nx, b.0, b.1), nx + 1, b.1, b.0);
}

} // verus!
