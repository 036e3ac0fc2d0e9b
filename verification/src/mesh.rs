//! Procedural mesh building: vertex attributes and triangle lists.
//!
//! The builder is generic over what a position (and normal), a texture
//! coordinate and a colour are: its logic is the topology, the indices that
//! tie vertices into triangles.
use vstd::prelude::*;

verus! {

/// A triangle-list mesh under construction.
pub struct MeshBuilder<P, U, C> {
    pub positions: Vec<P>,
    pub normals: Vec<P>,
    pub uvs: Vec<U>,
    /// Optional second UV channel, used by the sway shaders as (flex, phase).
    pub uvs_b: Vec<U>,
    pub colors: Vec<C>,
    pub indices: Vec<u32>,
}

/// Every index names a vertex of a mesh with `n` vertices.
pub open spec fn indices_below(indices: Seq<u32>, n: int) -> bool {
    forall|i: int| 0 <= i < indices.len() ==> #[trigger] indices[i] < n
}

/// `indices`, each shifted by `base`.
pub open spec fn shifted(indices: Seq<u32>, base: int) -> Seq<u32> {
    indices.map_values(|i: u32| (i + base) as u32)
}

/// The indices of a `cols` x `rows` grid of quads over the vertices
/// `start + c * (rows + 1) + r` (`c <= cols`, `r <= rows`), column by column:
/// quad `(i, i + rows + 1, i + rows + 2, i + 1)` for each cell.
pub open spec fn grid_indices(start: int, cols: int, rows: int, cells: int) -> Seq<u32>
    decreases cells,
{
    if cells <= 0 || rows <= 0 {
        seq![]
    } else {
        let k = cells - 1;
        let c = k / rows;
        let r = k % rows;
        let i = start + c * (rows + 1) + r;
        let j = i + rows + 1;
        grid_indices(start, cols, rows, k) + seq![
            i as u32,
            j as u32,
            (j + 1) as u32,
            i as u32,
            (j + 1) as u32,
            (i + 1) as u32,
        ]
    }
}

/// A triangle list with each triangle's last two corners swapped where `flip`
/// says so (triangles past the end of `flip` are kept).
pub open spec fn flipped(indices: Seq<u32>, flip: Seq<bool>) -> Seq<u32> {
    Seq::new(
        indices.len(),
        |i: int|
            {
                let t = i / 3;
                let k = i % 3;
                if t < flip.len() && flip[t] && (t + 1) * 3 <= indices.len() && k != 0 {
                    indices[t * 3 + (3 - k)]
                } else {
                    indices[i]
                }
            },
    )
}

impl<P, U, C> MeshBuilder<P, U, C> {
    /// Whether every index names one of the builder's vertices.
    pub open spec fn well_formed(&self) -> bool {
        indices_below(self.indices@, self.positions@.len() as int)
    }

    /// An empty builder.
    pub fn new() -> (b: Self)
        ensures
            b.positions@.len() == 0,
            b.normals@.len() == 0,
            b.uvs@.len() == 0,
            b.uvs_b@.len() == 0,
            b.colors@.len() == 0,
            b.indices@.len() == 0,
    {
        MeshBuilder {
            positions: Vec::new(),
            normals: Vec::new(),
            uvs: Vec::new(),
            uvs_b: Vec::new(),
            colors: Vec::new(),
            indices: Vec::new(),
        }
    }

    /// Adds a vertex (position, normal, texture coordinate) and returns its
    /// index. The normal is stored as it is given: making it a unit vector
    /// (floating point, outside this library) is the caller's part, done
    /// before the call.
    pub fn vertex(&mut self, p: P, n: P, uv: U) -> (index: u32)
        requires
            old(self).positions@.len() < u32::MAX,
        ensures
            index == old(self).positions@.len(),
            final(self).positions@ == old(self).positions@.push(p),
            final(self).normals@ == old(self).normals@.push(n),
            final(self).uvs@ == old(self).uvs@.push(uv),
            final(self).uvs_b@ == old(self).uvs_b@,
            final(self).colors@ == old(self).colors@,
            final(self).indices@ == old(self).indices@,
    {
        self.positions.push(p);
        self.normals.push(n);
        self.uvs.push(uv);
        (self.positions.len() - 1) as u32
    }

    /// Adds the triangle a-b-c.
    pub fn tri(&mut self, a: u32, b: u32, c: u32)
        ensures
            final(self).indices@ == old(self).indices@ + seq![a, b, c],
            final(self).positions@ == old(self).positions@,
            final(self).normals@ == old(self).normals@,
            final(self).uvs@ == old(self).uvs@,
            final(self).uvs_b@ == old(self).uvs_b@,
            final(self).colors@ == old(self).colors@,
    {
        self.indices.push(a);
        self.indices.push(b);
        self.indices.push(c);
        assert(self.indices@ =~= old(self).indices@ + seq![a, b, c]);
    }

    /// Adds the quad a-b-c-d (counter-clockwise seen from the front) as the
    /// triangles a-b-c and a-c-d.
    pub fn quad(&mut self, a: u32, b: u32, c: u32, d: u32)
        ensures
            final(self).indices@ == old(self).indices@ + seq![a, b, c, a, c, d],
            final(self).positions@ == old(self).positions@,
            final(self).normals@ == old(self).normals@,
            final(self).uvs@ == old(self).uvs@,
            final(self).uvs_b@ == old(self).uvs_b@,
            final(self).colors@ == old(self).colors@,
    {
        self.indices.push(a);
        self.indices.push(b);
        self.indices.push(c);
        self.indices.push(a);
        self.indices.push(c);
        self.indices.push(d);
        assert(self.indices@ =~= old(self).indices@ + seq![a, b, c, a, c, d]);
    }

    /// Number of vertices.
    pub fn len(&self) -> (n: u32)
        requires
            self.positions@.len() <= u32::MAX,
        ensures
            n == self.positions@.len(),
    {
        self.positions.len() as u32
    }

    /// Adds another builder's geometry: its vertices after ours, its indices
    /// shifted by our vertex count.
    pub fn append(&mut self, other: Self)
        requires
            old(self).positions@.len() <= u32::MAX,
            forall|i: int|
                0 <= i < other.indices@.len() ==> other.indices@[i] + old(self).positions@.len()
                    <= u32::MAX,
        ensures
            final(self).positions@ == old(self).positions@ + other.positions@,
            final(self).normals@ == old(self).normals@ + other.normals@,
            final(self).uvs@ == old(self).uvs@ + other.uvs@,
            final(self).uvs_b@ == old(self).uvs_b@ + other.uvs_b@,
            final(self).colors@ == old(self).colors@ + other.colors@,
            final(self).indices@ == old(self).indices@ + shifted(
                other.indices@,
                old(self).positions@.len() as int,
            ),
    {
        let base = self.len();
        let mut o = other;
        self.positions.append(&mut o.positions);
        self.normals.append(&mut o.normals);
        self.uvs.append(&mut o.uvs);
        self.uvs_b.append(&mut o.uvs_b);
        self.colors.append(&mut o.colors);
        let ghost start = self.indices@;
        let mut k: usize = 0;
        while k < o.indices.len()
            invariant
                k <= o.indices@.len(),
                o.indices@ == other.indices@,
                base == old(self).positions@.len(),
                self.positions@ == old(self).positions@ + other.positions@,
                self.normals@ == old(self).normals@ + other.normals@,
                self.uvs@ == old(self).uvs@ + other.uvs@,
                self.uvs_b@ == old(self).uvs_b@ + other.uvs_b@,
                self.colors@ == old(self).colors@ + other.colors@,
                forall|i: int|
                    0 <= i < other.indices@.len() ==> other.indices@[i] + old(self).positions@.len()
                        <= u32::MAX,
                self.indices@ == start + shifted(other.indices@.subrange(0, k as int), base as int),
            decreases o.indices@.len() - k,
        {
            let v = o.indices[k] + base;
            self.indices.push(v);
            proof {
                assert(shifted(other.indices@.subrange(0, k + 1), base as int) =~= shifted(
                    other.indices@.subrange(0, k as int),
                    base as int,
                ).push(v));
            }
            k = k + 1;
        }
        assert(other.indices@.subrange(0, other.indices@.len() as int) =~= other.indices@);
    }

    /// Adds a `cols` x `rows` grid of quads over the vertices from `start`,
    /// laid out column by column (`rows + 1` vertices per column).
    pub fn grid(&mut self, start: u32, cols: u32, rows: u32)
        requires
            start + (cols + 1) * (rows + 1) <= u32::MAX,
        ensures
            final(self).indices@ == old(self).indices@ + grid_indices(
                start as int,
                cols as int,
                rows as int,
                cols * rows,
            ),
            final(self).positions@ == old(self).positions@,
            final(self).normals@ == old(self).normals@,
            final(self).uvs@ == old(self).uvs@,
            final(self).uvs_b@ == old(self).uvs_b@,
            final(self).colors@ == old(self).colors@,
    {
        let ghost start_idx = self.indices@;
        let mut c: u32 = 0;
        while c < cols
            invariant
                start + (cols + 1) * (rows + 1) <= u32::MAX,
                c <= cols,
                self.positions@ == old(self).positions@,
                self.normals@ == old(self).normals@,
                self.uvs@ == old(self).uvs@,
                self.uvs_b@ == old(self).uvs_b@,
                self.colors@ == old(self).colors@,
                self.indices@ == start_idx + grid_indices(start as int, cols as int, rows as int, c * rows),
            decreases cols - c,
        {
            let mut r: u32 = 0;
            while r < rows
                invariant
                    start + (cols + 1) * (rows + 1) <= u32::MAX,
                    c < cols,
                    r <= rows,
                    self.positions@ == old(self).positions@,
                    self.normals@ == old(self).normals@,
                    self.uvs@ == old(self).uvs@,
                    self.uvs_b@ == old(self).uvs_b@,
                    self.colors@ == old(self).colors@,
                    self.indices@ == start_idx + grid_indices(
                        start as int,
                        cols as int,
                        rows as int,
                        c * rows + r,
                    ),
                decreases rows - r,
            {
                assert(c * (rows + 1) + r + rows + 2 <= (cols + 1) * (rows + 1)) by (nonlinear_arith)
                    requires
                        c < cols,
                        r < rows,
                ;
                assert(0 <= c * (rows + 1)) by (nonlinear_arith);
                let i = start + c * (rows + 1) + r;
                let j = i + rows + 1;
                proof {
                    let k = c * rows + r;
                    vstd::arithmetic::div_mod::lemma_fundamental_div_mod_converse(
                        k as int,
                        rows as int,
                        c as int,
                        r as int,
                    );
                    assert(grid_indices(start as int, cols as int, rows as int, k + 1)
                        == grid_indices(start as int, cols as int, rows as int, k as int) + seq![
                        i,
                        j,
                        (j + 1) as u32,
                        i,
                        (j + 1) as u32,
                        (i + 1) as u32,
                    ]);
                }
                self.quad(i, j, j + 1, i + 1);
                proof {
                    vstd::seq_lib::lemma_concat_associative(
                        start_idx,
                        grid_indices(start as int, cols as int, rows as int, c * rows + r),
                        seq![i, j, (j + 1) as u32, i, (j + 1) as u32, (i + 1) as u32],
                    );
                }
                r = r + 1;
            }
            assert(c * rows + rows == (c + 1) * rows) by (nonlinear_arith);
            c = c + 1;
        }
    }

    /// Swaps the last two corners of each triangle `t` with `flip[t]` (the
    /// ones whose geometric normal disagrees with their vertex normals).
    pub fn flip_triangles(&mut self, flip: &[bool])
        ensures
            final(self).indices@ == flipped(old(self).indices@, flip@),
            final(self).positions@ == old(self).positions@,
            final(self).normals@ == old(self).normals@,
            final(self).uvs@ == old(self).uvs@,
            final(self).uvs_b@ == old(self).uvs_b@,
            final(self).colors@ == old(self).colors@,
    {
        let n = self.indices.len() / 3;
        let mut t: usize = 0;
        while t < n
            invariant
                n == old(self).indices@.len() / 3,
                old(self).indices@.len() <= usize::MAX,
                t <= n,
                self.indices@.len() == old(self).indices@.len(),
                self.positions@ == old(self).positions@,
                self.normals@ == old(self).normals@,
                self.uvs@ == old(self).uvs@,
                self.uvs_b@ == old(self).uvs_b@,
                self.colors@ == old(self).colors@,
                forall|i: int|
                    0 <= i < self.indices@.len() ==> #[trigger] self.indices@[i] == if i < t * 3 {
                        flipped(old(self).indices@, flip@)[i]
                    } else {
                        old(self).indices@[i]
                    },
            decreases n - t,
        {
            let ghost len = self.indices@.len();
            assert(t * 3 + 2 < len) by (nonlinear_arith)
                requires
                    t < n,
                    n == len / 3,
            ;
            if t < flip.len() && flip[t] {
                let b = self.indices[t * 3 + 1];
                let c = self.indices[t * 3 + 2];
                self.indices.set(t * 3 + 1, c);
                self.indices.set(t * 3 + 2, b);
            }
            proof {
                assert forall|i: int| 0 <= i < self.indices@.len() implies #[trigger] self.indices@[i]
                    == if i < (t + 1) * 3 {
                    flipped(old(self).indices@, flip@)[i]
                } else {
                    old(self).indices@[i]
                } by {
                    if t * 3 <= i < (t + 1) * 3 {
                        vstd::arithmetic::div_mod::lemma_fundamental_div_mod_converse(
                            i,
                            3,
                            t as int,
                            i - t * 3,
                        );
                        assert((t as int + 1) * 3 <= len) by (nonlinear_arith)
                            requires
                                t < n,
                                n == len / 3,
                        ;
                    } else if i < t * 3 {
                    }
                }
            }
            t = t + 1;
        }
        proof {
            assert forall|i: int| 0 <= i < self.indices@.len() implies #[trigger] self.indices@[i]
                == flipped(old(self).indices@, flip@)[i] by {
                let len = self.indices@.len();
                if i >= n * 3 {
                    vstd::arithmetic::div_mod::lemma_fundamental_div_mod(i, 3);
                    vstd::arithmetic::div_mod::lemma_fundamental_div_mod(len as int, 3);
                    assert(i / 3 >= n) by (nonlinear_arith)
                        requires
                            i >= n * 3,
                            i == 3 * (i / 3) + i % 3,
                            0 <= i % 3 < 3,
                    ;
                    assert((i / 3 + 1) * 3 > len) by (nonlinear_arith)
                        requires
                            i / 3 >= n,
                            n == len / 3,
                            len == 3 * (len / 3) + len % 3,
                            0 <= len % 3 < 3,
                    ;
                }
            }
            assert(self.indices@ =~= flipped(old(self).indices@, flip@));
        }
    }
}

/// Appending keeps a mesh well formed: the other mesh's triangles, shifted
/// past our vertices, name the vertices it brought.
pub proof fn lemma_append_well_formed(
    a_indices: Seq<u32>,
    a_len: int,
    b_indices: Seq<u32>,
    b_len: int,
)
    requires
        indices_below(a_indices, a_len),
        indices_below(b_indices, b_len),
        0 <= a_len,
        0 <= b_len,
        forall|i: int| 0 <= i < b_indices.len() ==> b_indices[i] + a_len <= u32::MAX,
    ensures
        indices_below(a_indices + shifted(b_indices, a_len), a_len + b_len),
{
    assert forall|i: int| 0 <= i < (a_indices + shifted(b_indices, a_len)).len() implies #[trigger] (
    a_indices + shifted(b_indices, a_len))[i] < a_len + b_len by {
        if i >= a_indices.len() {
            let k = i - a_indices.len();
            assert(b_indices[k] < b_len);
            assert((a_indices + shifted(b_indices, a_len))[i] == shifted(b_indices, a_len)[k]);
            assert(shifted(b_indices, a_len)[k] == (b_indices[k] + a_len) as u32);
        }
    }
}

/// A grid laid over vertices that exist gives triangles over vertices that
/// exist.
pub proof fn lemma_grid_in_range(start: int, cols: int, rows: int, cells: int, n: int)
    requires
        0 <= start,
        0 <= cols,
        0 <= rows,
        0 <= cells <= cols * rows,
        start + (cols + 1) * (rows + 1) <= n,
        start + (cols + 1) * (rows + 1) <= u32::MAX,
    ensures
        indices_below(grid_indices(start, cols, rows, cells), n),
    decreases cells,
{
    if cells > 0 && rows > 0 {
        let k = cells - 1;
        lemma_grid_in_range(start, cols, rows, k, n);
        let c = k / rows;
        let r = k % rows;
        vstd::arithmetic::div_mod::lemma_fundamental_div_mod(k, rows);
        assert(c < cols) by (nonlinear_arith)
            requires
                k < cols * rows,
                k == rows * c + r,
                0 <= r < rows,
                0 < rows,
        ;
        assert(c * (rows + 1) + r + rows + 2 < (cols + 1) * (rows + 1)) by (nonlinear_arith)
            requires
                c < cols,
                0 <= r < rows,
                0 <= c,
        ;
        assert(0 <= c * (rows + 1)) by (nonlinear_arith)
            requires
                0 <= c,
                0 <= rows,
        ;
        let g = grid_indices(start, cols, rows, cells);
        let prev = grid_indices(start, cols, rows, k);
        let i0 = start + c * (rows + 1) + r;
        let j0 = i0 + rows + 1;
        let last = seq![
            i0 as u32,
            j0 as u32,
            (j0 + 1) as u32,
            i0 as u32,
            (j0 + 1) as u32,
            (i0 + 1) as u32,
        ];
        assert(g == prev + last);
        assert forall|i: int| 0 <= i < g.len() implies #[trigger] g[i] < n by {
            if i >= prev.len() {
                assert(g[i] == last[i - prev.len()]);
            } else {
                assert(g[i] == prev[i]);
            }
        }
    }
}

proof fn lemma_grid_indices_len(start: int, cols: int, rows: int, n: int)
    requires
        0 < rows,
        0 <= n,
    ensures
        grid_indices(start, cols, rows, n).len() == 6 * n,
    decreases n,
{
    if n > 0 {
        lemma_grid_indices_len(start, cols, rows, n - 1);
    }
}

proof fn lemma_grid_indices_prefix(start: int, cols: int, rows: int, m: int, n: int)
    requires
        0 < rows,
        0 <= m <= n,
    ensures
        grid_indices(start, cols, rows, m) =~= grid_indices(start, cols, rows, n).subrange(0, 6 * m),
    decreases n,
{
    lemma_grid_indices_len(start, cols, rows, m);
    lemma_grid_indices_len(start, cols, rows, n);
    if m < n {
        lemma_grid_indices_prefix(start, cols, rows, m, n - 1);
        lemma_grid_indices_len(start, cols, rows, n - 1);
    }
}

/// Every cell of a grid is one quad, wound the same way: cell (c, r) of a
/// `cols` x `rows` grid puts the six indices `i, j, j + 1, i, j + 1, i + 1`
/// (with `i = start + c * (rows + 1) + r` and `j = i + rows + 1`, the same
/// row of the next column) at position `6 * (c * rows + r)`, and the grid
/// holds nothing else.
pub proof fn lemma_grid_cells(start: int, cols: int, rows: int, c: int, r: int)
    requires
        0 <= start,
        0 <= c < cols,
        0 <= r < rows,
        start + (cols + 1) * (rows + 1) <= u32::MAX,
    ensures
        ({
            let g = grid_indices(start, cols, rows, cols * rows);
            let k = c * rows + r;
            let i = start + c * (rows + 1) + r;
            let j = i + rows + 1;
            &&& g.len() == 6 * cols * rows
            &&& g[6 * k] as int == i
            &&& g[6 * k + 1] as int == j
            &&& g[6 * k + 2] as int == j + 1
            &&& g[6 * k + 3] as int == i
            &&& g[6 * k + 4] as int == j + 1
            &&& g[6 * k + 5] as int == i + 1
        }),
{
    let k = c * rows + r;
    let n = cols * rows;
    assert(0 <= k < n && 6 * n == 6 * cols * rows) by (nonlinear_arith)
        requires
            0 <= c < cols,
            0 <= r < rows,
            k == c * rows + r,
            n == cols * rows,
    ;
    assert(c * (rows + 1) + r + rows + 2 <= (cols + 1) * (rows + 1)) by (nonlinear_arith)
        requires
            0 <= c < cols,
            0 <= r < rows,
    ;
    assert(0 <= c * (rows + 1)) by (nonlinear_arith)
        requires
            0 <= c,
            0 <= rows,
    ;
    lemma_grid_indices_len(start, cols, rows, n);
    lemma_grid_indices_len(start, cols, rows, k);
    lemma_grid_indices_prefix(start, cols, rows, k + 1, n);
    vstd::arithmetic::div_mod::lemma_fundamental_div_mod_converse(k, rows, c, r);
    let g1 = grid_indices(start, cols, rows, k + 1);
    let g = grid_indices(start, cols, rows, n);
    assert(g1[6 * k] == g[6 * k]);
    assert(g1[6 * k + 1] == g[6 * k + 1]);
    assert(g1[6 * k + 2] == g[6 * k + 2]);
    assert(g1[6 * k + 3] == g[6 * k + 3]);
    assert(g1[6 * k + 4] == g[6 * k + 4]);
    assert(g1[6 * k + 5] == g[6 * k + 5]);
}

} // verus!
