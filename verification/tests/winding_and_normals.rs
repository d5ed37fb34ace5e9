//! The mirror-instance winding flip and smooth normal generation.

use glam::Vec3;
use scenecore::ingest::flip_winding;
use scenecore::normals::compute_normals;

fn vbits(v: Vec3) -> [u32; 3] {
    [v.x.to_bits(), v.y.to_bits(), v.z.to_bits()]
}

fn vfrom(b: &[u32; 3]) -> Vec3 {
    Vec3::new(
        f32::from_bits(b[0]),
        f32::from_bits(b[1]),
        f32::from_bits(b[2]),
    )
}

#[test]
fn winding_flip_swaps_second_and_third_corner_of_every_triangle() {
    let idx: Vec<u16> = vec![0, 1, 2, 3, 4, 5, 6, 7, 8];
    let flipped = flip_winding(&idx);
    assert_eq!(flipped, vec![0, 2, 1, 3, 5, 4, 6, 8, 7]);
    for t in 0..idx.len() / 3 {
        assert_eq!(flipped[3 * t], idx[3 * t]);
        assert_eq!(flipped[3 * t + 1], idx[3 * t + 2]);
        assert_eq!(flipped[3 * t + 2], idx[3 * t + 1]);
    }
}

#[test]
fn winding_flip_leaves_trailing_partial_triangle_alone() {
    let idx: Vec<u16> = vec![0, 1, 2, 9, 10];
    assert_eq!(flip_winding(&idx), vec![0, 2, 1, 9, 10]);
}

#[test]
fn winding_flip_twice_is_identity() {
    let idx: Vec<u16> = vec![5, 3, 1, 0, 2, 4];
    assert_eq!(flip_winding(&flip_winding(&idx)), idx);
}

#[test]
fn tetrahedron_normals_are_normalized_adjacent_face_sums() {
    // a regular tetrahedron
    let verts = [
        Vec3::new(1.0, 1.0, 1.0),
        Vec3::new(1.0, -1.0, -1.0),
        Vec3::new(-1.0, 1.0, -1.0),
        Vec3::new(-1.0, -1.0, 1.0),
    ];
    let positions: Vec<[u32; 3]> = verts.iter().map(|v| vbits(*v)).collect();
    let indices: Vec<u16> = vec![0, 1, 2, 0, 3, 1, 0, 2, 3, 1, 3, 2];

    let normals = compute_normals(&positions, &indices);
    assert_eq!(normals.len(), 4);

    // expected: per-vertex sum of adjacent (unnormalized) face normals,
    // normalized; accumulate exactly like the generator does
    let mut sums = vec![Vec3::ZERO; 4];
    for tri in indices.chunks_exact(3) {
        let (a, b, c) = (tri[0] as usize, tri[1] as usize, tri[2] as usize);
        let face = (verts[b] - verts[a]).cross(verts[c] - verts[a]);
        sums[a] += face;
        sums[b] += face;
        sums[c] += face;
    }
    for v in 0..4 {
        let got = vfrom(&normals[v]);
        let expect = sums[v].normalize();
        assert!((got - expect).length() < 1e-5, "vertex {v}: {got} vs {expect}");
        assert!((got.length() - 1.0).abs() < 1e-5, "vertex {v} not unit length");
        // for a regular tetrahedron the smooth normal points away from the
        // centroid through the vertex
        assert!(got.dot(verts[v].normalize()) > 0.99 || got.dot(verts[v].normalize()) < -0.99);
    }
}

#[test]
fn generated_normals_accumulate_cross_products_exactly() {
    // one triangle: each corner's normal is the normalized face cross
    // product, bit for bit
    let a = Vec3::new(0.0, 0.0, 0.0);
    let b = Vec3::new(1.0, 0.0, 0.0);
    let c = Vec3::new(0.0, 1.0, 0.0);
    let positions = vec![vbits(a), vbits(b), vbits(c)];
    let indices: Vec<u16> = vec![0, 1, 2];
    let normals = compute_normals(&positions, &indices);
    let face = (b - a).cross(c - a);
    let expect = vbits((Vec3::ZERO + face).normalize());
    assert_eq!(normals, vec![expect, expect, expect]);
}
