//! Photogrammetry scans: once simplified, a scan's triangles are reordered
//! for the GPU's vertex cache, and only the vertices still referenced are
//! kept, renumbered in first-use order.
use vstd::prelude::*;
use crate::mesh::indices_below;

verus! {

/// The triangles of a triangle list, as triples.
pub open spec fn triangles(s: Seq<u32>) -> Seq<(u32, u32, u32)> {
    Seq::new(s.len() / 3, |t: int| (s[3 * t], s[3 * t + 1], s[3 * t + 2]))
}

/// What `meshopt::optimize_vertex_cache` returns for a triangle list over
/// `vertex_count` vertices: a function of its arguments alone.
pub uninterp spec fn vertex_cache_order(indices: Seq<u32>, vertex_count: nat) -> Seq<u32>;

/// Reorders the triangles for the GPU's vertex cache, with
/// `meshopt::optimize_vertex_cache`. Trusted: meshoptimizer emits every input
/// triangle exactly once, its corners in their order, so the output has the
/// input's length and the same triangles (as a multiset); which order it picks
/// is only named, by `vertex_cache_order`.
#[verifier::external_body]
fn optimize_vertex_cache(indices: &[u32], vertex_count: usize) -> (out: Vec<u32>)
    requires
        indices@.len() % 3 == 0,
        indices_below(indices@, vertex_count as int),
    ensures
        out@ == vertex_cache_order(indices@, vertex_count as nat),
        out@.len() == indices@.len(),
        triangles(out@).to_multiset() == triangles(indices@).to_multiset(),
        indices_below(out@, vertex_count as int),
{
    meshopt::optimize_vertex_cache(indices, vertex_count)
}

/// The distinct values of the first `n` elements of `s`, in order of first
/// appearance.
pub open spec fn first_use(s: Seq<u32>, n: nat) -> Seq<u32>
    decreases n,
{
    if n == 0 {
        seq![]
    } else {
        let prev = first_use(s, (n - 1) as nat);
        if prev.contains(s[n - 1]) {
            prev
        } else {
            prev.push(s[n - 1])
        }
    }
}

/// A triangle list renumbered over only the vertices it uses.
pub struct Compacted {
    /// The triangles, over the new vertex numbers.
    pub indices: Vec<u32>,
    /// For each new vertex, the old vertex it is.
    pub order: Vec<u32>,
}

/// Keeps only the vertices the triangles use, numbered in order of first use:
/// `order` lists the old vertex of each new one, and every triangle names the
/// same vertices as before.
pub fn compact_vertices(indices: &Vec<u32>, vertex_count: usize) -> (c: Compacted)
    requires
        indices_below(indices@, vertex_count as int),
        vertex_count < u32::MAX,
    ensures
        c.order@ == first_use(indices@, indices@.len()),
        c.order@.no_duplicates(),
        indices_below(c.order@, vertex_count as int),
        c.indices@.len() == indices@.len(),
        indices_below(c.indices@, c.order@.len() as int),
        forall|i: int| 0 <= i < indices@.len() ==> c.order@[#[trigger] c.indices@[i] as int] == indices@[i],
{
    let mut remap: Vec<u32> = Vec::new();
    let mut k: usize = 0;
    while k < vertex_count
        invariant
            k <= vertex_count,
            remap@.len() == k,
            forall|v: int| 0 <= v < k ==> remap@[v] == u32::MAX,
        decreases vertex_count - k,
    {
        remap.push(u32::MAX);
        k = k + 1;
    }
    let mut order: Vec<u32> = Vec::new();
    let mut out: Vec<u32> = Vec::new();
    let mut i: usize = 0;
    while i < indices.len()
        invariant
            indices_below(indices@, vertex_count as int),
            vertex_count < u32::MAX,
            i <= indices@.len(),
            remap@.len() == vertex_count,
            order@ == first_use(indices@, i as nat),
            order@.no_duplicates(),
            indices_below(order@, vertex_count as int),
            order@.len() <= vertex_count,
            forall|v: int|
                0 <= v < vertex_count ==> (#[trigger] remap@[v] == u32::MAX <==> !order@.contains(
                    v as u32,
                )),
            forall|v: int|
                0 <= v < vertex_count && remap@[v] != u32::MAX ==> #[trigger] remap@[v] < order@.len()
                    && order@[remap@[v] as int] == v,
            out@.len() == i,
            forall|j: int|
                0 <= j < i ==> #[trigger] out@[j] < order@.len() && order@[out@[j] as int]
                    == indices@[j],
        decreases indices@.len() - i,
    {
        let old_v = indices[i];
        assert(old_v < vertex_count);
        if remap[old_v as usize] == u32::MAX {
            proof {
                assert(!order@.contains(old_v));
                assert(order@.push(old_v).no_duplicates()) by {
                    assert forall|a: int, b: int|
                        0 <= a < b < order@.push(old_v).len() implies order@.push(old_v)[a]
                        != order@.push(old_v)[b] by {
                        if b == order@.len() {
                            assert(order@[a] == order@.push(old_v)[a]);
                            if order@[a] == old_v {
                                assert(order@.contains(old_v));
                            }
                        }
                    }
                }
                assert(indices_below(order@.push(old_v), vertex_count as int));
                lemma_distinct_below_len(order@.push(old_v), vertex_count as int);
            }
            let ghost order_before = order@;
            let ghost remap_before = remap@;
            let fresh = order.len() as u32;
            remap.set(old_v as usize, fresh);
            order.push(old_v);
            proof {
                assert(order@.no_duplicates()) by {
                    assert forall|a: int, b: int|
                        0 <= a < b < order@.len() implies order@[a] != order@[b] by {
                        if b == order_before.len() && order_before[a] == old_v {
                            assert(order_before.contains(old_v));
                        }
                    }
                }
                assert forall|v: int|
                    0 <= v < vertex_count implies (#[trigger] remap@[v] == u32::MAX <==> !order@.contains(
                    v as u32,
                )) by {
                    lemma_push_contains(order_before, old_v, v as u32);
                }
                assert forall|v: int|
                    0 <= v < vertex_count && remap@[v] != u32::MAX implies #[trigger] remap@[v]
                    < order@.len() && order@[remap@[v] as int] == v by {
                    if v != old_v as int {
                        assert(remap@[v] == remap_before[v]);
                    }
                }
            }
        }
        let nv = remap[old_v as usize];
        out.push(nv);
        i = i + 1;
    }
    Compacted { indices: out, order }
}

proof fn lemma_push_contains(s: Seq<u32>, x: u32, v: u32)
    ensures
        s.push(x).contains(v) <==> (s.contains(v) || v == x),
{
    if s.contains(v) {
        let k = choose|k: int| 0 <= k < s.len() && s[k] == v;
        assert(s.push(x)[k] == v);
    }
    if v == x {
        assert(s.push(x)[s.len() as int] == v);
    }
    if s.push(x).contains(v) && v != x {
        let k = choose|k: int| 0 <= k < s.push(x).len() && s.push(x)[k] == v;
        assert(k < s.len());
        assert(s[k] == v);
    }
}

/// The first-use list of a sequence of vertices below `n` has distinct values
/// below `n`.
proof fn lemma_first_use_bound(s: Seq<u32>, i: nat, n: int)
    requires
        i <= s.len(),
        indices_below(s, n),
    ensures
        indices_below(first_use(s, i), n),
        first_use(s, i).no_duplicates(),
    decreases i,
{
    if i > 0 {
        lemma_first_use_bound(s, (i - 1) as nat, n);
    }
}

/// Distinct values below `n` are at most `n`.
proof fn lemma_distinct_below_len(s: Seq<u32>, n: int)
    requires
        s.no_duplicates(),
        indices_below(s, n),
        0 <= n,
    ensures
        s.len() <= n,
{
    let set = s.to_set();
    s.unique_seq_to_set();
    let range = Set::new(|v: u32| (v as int) < n);
    lemma_set_of_u32_below(n);
    assert forall|v: u32| set.contains(v) implies range.contains(v) by {
        let k = choose|k: int| 0 <= k < s.len() && s[k] == v;
        assert(s[k] < n);
    }
    assert(set.subset_of(range));
    vstd::set_lib::lemma_len_subset(set, range);
}

proof fn lemma_set_of_u32_below(n: int)
    ensures
        Set::new(|v: u32| (v as int) < n).finite(),
        n >= 0 ==> Set::new(|v: u32| (v as int) < n).len() <= n,
        n < 0 ==> Set::new(|v: u32| (v as int) < n).len() == 0,
    decreases if n < 0 { 0 } else { n },
{
    let r = Set::new(|v: u32| (v as int) < n);
    if n <= 0 {
        assert(r =~= Set::empty());
    } else {
        lemma_set_of_u32_below(n - 1);
        let r0 = Set::new(|v: u32| (v as int) < n - 1);
        if n - 1 <= u32::MAX {
            assert(r =~= r0.insert((n - 1) as u32));
        } else {
            assert(r =~= r0);
        }
    }
}

/// A scan's triangles reordered for the vertex cache, then renumbered over
/// the vertices they still use, in first-use order.
pub fn reindex_scan(indices: &Vec<u32>, vertex_count: usize) -> (c: Compacted)
    requires
        indices@.len() % 3 == 0,
        indices_below(indices@, vertex_count as int),
        vertex_count < u32::MAX,
    ensures
        ({
            let kept = vertex_cache_order(indices@, vertex_count as nat);
            &&& c.order@ == first_use(kept, kept.len())
            &&& c.indices@.len() == indices@.len()
            &&& forall|i: int|
                0 <= i < kept.len() ==> c.order@[#[trigger] c.indices@[i] as int] == kept[i]
        }),
        c.order@.no_duplicates(),
        indices_below(c.order@, vertex_count as int),
        indices_below(c.indices@, c.order@.len() as int),
        triangles(vertex_cache_order(indices@, vertex_count as nat)).to_multiset() == triangles(
            indices@,
        ).to_multiset(),
{
    let kept = optimize_vertex_cache(indices.as_slice(), vertex_count);
    compact_vertices(&kept, vertex_count)
}

} // verus!
