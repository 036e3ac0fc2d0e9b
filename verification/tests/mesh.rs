use aquarium::mesh::MeshBuilder;
use aquarium::sand::border_ring;
use aquarium::scan::{compact_vertices, reindex_scan};

type Builder = MeshBuilder<[f32; 3], [f32; 2], [f32; 4]>;

fn triangle_set(indices: &[u32], order: &[u32]) -> Vec<[u32; 3]> {
    let mut t: Vec<[u32; 3]> = indices
        .chunks_exact(3)
        .map(|c| [order[c[0] as usize], order[c[1] as usize], order[c[2] as usize]])
        .collect();
    t.sort();
    t
}

#[test]
fn vertices_are_numbered_in_order() {
    let mut b = Builder::new();
    assert_eq!(b.vertex([0.0; 3], [0.0, 1.0, 0.0], [0.0; 2]), 0);
    assert_eq!(b.vertex([1.0; 3], [0.0, 1.0, 0.0], [1.0; 2]), 1);
    assert_eq!(b.len(), 2);
    assert_eq!(b.normals.len(), 2);
    assert_eq!(b.uvs.len(), 2);
    assert!(b.indices.is_empty());
}

#[test]
fn quads_are_two_triangles() {
    let mut b = Builder::new();
    b.tri(0, 1, 2);
    b.quad(3, 4, 5, 6);
    assert_eq!(b.indices, vec![0, 1, 2, 3, 4, 5, 3, 5, 6]);
}

#[test]
fn append_shifts_indices() {
    let mut a = Builder::new();
    for _ in 0..3 {
        a.vertex([0.0; 3], [0.0; 3], [0.0; 2]);
    }
    a.tri(0, 1, 2);
    let mut b = Builder::new();
    for _ in 0..4 {
        b.vertex([1.0; 3], [0.0; 3], [0.0; 2]);
    }
    b.quad(0, 1, 2, 3);
    a.append(b);
    assert_eq!(a.len(), 7);
    assert_eq!(a.indices, vec![0, 1, 2, 3, 4, 5, 3, 5, 6]);
    assert!(a.indices.iter().all(|&i| i < a.len()));
}

#[test]
fn grid_of_quads() {
    let mut b = Builder::new();
    b.grid(10, 2, 1);
    // Columns of 2 vertices: (10, 11), (12, 13), (14, 15).
    assert_eq!(b.indices, vec![10, 12, 13, 10, 13, 11, 12, 14, 15, 12, 15, 13]);
    let mut e = Builder::new();
    e.grid(0, 3, 0);
    assert!(e.indices.is_empty());
}

#[test]
fn flipping_swaps_the_last_two_corners() {
    let mut b = Builder::new();
    b.tri(0, 1, 2);
    b.tri(3, 4, 5);
    b.tri(6, 7, 8);
    b.flip_triangles(&[false, true]);
    assert_eq!(b.indices, vec![0, 1, 2, 3, 5, 4, 6, 7, 8]);
}

#[test]
fn compaction_keeps_used_vertices_in_first_use_order() {
    let indices = vec![5u32, 2, 7, 2, 5, 9];
    let c = compact_vertices(&indices, 10);
    assert_eq!(c.order, vec![5, 2, 7, 9]);
    assert_eq!(c.indices, vec![0, 1, 2, 1, 0, 3]);
    let back: Vec<u32> = c.indices.iter().map(|&i| c.order[i as usize]).collect();
    assert_eq!(back, indices);
}

#[test]
fn cache_reordering_keeps_the_triangles() {
    // A 4x4 grid of quads over 25 vertices, then unused vertices 25..30.
    let mut b = Builder::new();
    b.grid(0, 4, 4);
    let before = triangle_set(&b.indices, &(0..30).collect::<Vec<u32>>());
    let c = reindex_scan(&b.indices, 30);
    assert_eq!(c.indices.len(), b.indices.len());
    assert_eq!(c.order.len(), 25);
    assert!(c.order.iter().all(|&v| v < 25));
    let mut seen = c.order.clone();
    seen.sort();
    seen.dedup();
    assert_eq!(seen.len(), 25);
    assert_eq!(triangle_set(&c.indices, &c.order), before);
    // Renumbered in first-use order: the first triangle uses 0, 1, 2.
    assert_eq!(&c.indices[..3], &[0, 1, 2]);
}

#[test]
fn sand_border_ring() {
    let ring = border_ring(3, 2);
    assert_eq!(ring, vec![0, 1, 2, 3, 7, 11, 10, 9, 8, 4]);
    let big = border_ring(220, 96);
    assert_eq!(big.len(), 2 * 220 + 2 * 96);
    let mut s = big.clone();
    s.sort();
    s.dedup();
    assert_eq!(s.len(), big.len());
}

#[test]
fn cache_reordering_changes_a_scrambled_order() {
    let mut b = Builder::new();
    b.grid(0, 8, 8);
    let tris: Vec<[u32; 3]> = b.indices.chunks_exact(3).map(|c| [c[0], c[1], c[2]]).collect();
    // Every 37th triangle, round the list: far-apart triangles one after another.
    let n = tris.len();
    let scrambled: Vec<u32> = (0..n).flat_map(|k| tris[(k * 37) % n]).collect();
    let c = reindex_scan(&scrambled, 81);
    let back: Vec<u32> = c.indices.iter().map(|&i| c.order[i as usize]).collect();
    assert_ne!(back, scrambled);
    assert_eq!(triangle_set(&c.indices, &c.order), triangle_set(&scrambled, &(0..81).collect::<Vec<u32>>()));
}

#[test]
fn grid_leaves_the_vertices_alone() {
    let mut b = Builder::new();
    for k in 0..6 {
        b.vertex([k as f32; 3], [0.0, 1.0, 0.0], [0.5; 2]);
    }
    b.uvs_b.push([1.0, 2.0]);
    b.colors.push([1.0; 4]);
    b.grid(0, 2, 1);
    assert_eq!(b.positions.len(), 6);
    assert_eq!(b.normals, vec![[0.0, 1.0, 0.0]; 6]);
    assert_eq!(b.uvs, vec![[0.5; 2]; 6]);
    assert_eq!(b.uvs_b, vec![[1.0, 2.0]]);
    assert_eq!(b.colors, vec![[1.0; 4]]);
    assert_eq!(b.indices.len(), 12);
}
