//! Smooth per-vertex normal generation for meshes authored without
//! normals: every triangle's face cross-product is accumulated onto each of
//! its three corners, and each vertex's sum is normalized.

use vstd::prelude::*;

use crate::mathops::{
    v3_add, v3_add_of, v3_cross, v3_cross_of, v3_normalize, v3_normalize_of, v3_sub, v3_sub_of,
};

verus! {

/// The face normal of the triangle (a, b, c): the cross product of its two
/// edges out of `a`.
pub open spec fn spec_face_normal(a: Seq<u32>, b: Seq<u32>, c: Seq<u32>) -> Seq<u32> {
    v3_cross_of(v3_sub_of(b, a), v3_sub_of(c, a))
}

/// The zero vector's bit patterns.
pub open spec fn spec_zero3() -> Seq<u32> {
    seq![0u32, 0u32, 0u32]
}

/// The accumulated (not yet normalized) normal of vertex `v` after the
/// first `t` triangles: starting from zero, each triangle listing `v` as a
/// corner adds its face normal once per listing, corners in order.
pub open spec fn spec_accum(positions: Seq<[u32; 3]>, indices: Seq<u16>, t: int, v: int) -> Seq<
    u32,
>
    decreases t,
{
    if t <= 0 {
        spec_zero3()
    } else {
        let ia = indices[3 * (t - 1)] as int;
        let ib = indices[3 * (t - 1) + 1] as int;
        let ic = indices[3 * (t - 1) + 2] as int;
        let face = spec_face_normal(positions[ia]@, positions[ib]@, positions[ic]@);
        let s0 = spec_accum(positions, indices, t - 1, v);
        let s1 = if ia == v {
            v3_add_of(s0, face)
        } else {
            s0
        };
        let s2 = if ib == v {
            v3_add_of(s1, face)
        } else {
            s1
        };
        if ic == v {
            v3_add_of(s2, face)
        } else {
            s2
        }
    }
}

/// Generate smooth per-vertex normals: one normal per position, the
/// normalization of the sum of the raw face cross-products of every
/// triangle that lists the vertex (the cross-products are not normalized
/// before accumulating, so larger faces weigh more). Trailing indices
/// short of a full triangle are ignored.
pub fn compute_normals(positions: &Vec<[u32; 3]>, indices: &Vec<u16>) -> (r: Vec<[u32; 3]>)
    requires
        forall|i: int| 0 <= i < indices@.len() ==> (indices@[i] as int) < positions@.len(),
    ensures
        r@.len() == positions@.len(),
        forall|v: int|
            0 <= v < r@.len() ==> (#[trigger] r@[v])@ == v3_normalize_of(
                spec_accum(positions@, indices@, indices@.len() as int / 3, v),
            ),
{
    let n = positions.len();
    let mut acc: Vec<[u32; 3]> = Vec::new();
    let mut i: usize = 0;
    while i < n
        invariant
            i <= n,
            acc@.len() == i,
            forall|v: int| 0 <= v < i ==> (#[trigger] acc@[v])@ == spec_zero3(),
        decreases n - i,
    {
        let z = [0u32, 0u32, 0u32];
        proof {
            assert(z@ =~= spec_zero3());
        }
        acc.push(z);
        i += 1;
    }

    let tri_count = indices.len() / 3;
    let mut t: usize = 0;
    while t < tri_count
        invariant
            t <= tri_count,
            indices@.len() <= usize::MAX,
            tri_count == indices@.len() as int / 3,
            acc@.len() == positions@.len(),
            forall|i: int| 0 <= i < indices@.len() ==> (indices@[i] as int) < positions@.len(),
            forall|v: int|
                0 <= v < acc@.len() ==> (#[trigger] acc@[v])@ == spec_accum(
                    positions@,
                    indices@,
                    t as int,
                    v,
                ),
        decreases tri_count - t,
    {
        let ghost pre_acc = acc@;
        proof {
            assert((indices@.len() as int / 3) * 3 <= indices@.len() as int);
            assert(3 * (t as int) + 2 < indices@.len() as int);
        }
        let ia = indices[3 * t] as usize;
        let ib = indices[3 * t + 1] as usize;
        let ic = indices[3 * t + 2] as usize;
        let pa = positions[ia];
        let pb = positions[ib];
        let pc = positions[ic];
        let edge1 = v3_sub(&pb, &pa);
        let edge2 = v3_sub(&pc, &pa);
        let face = v3_cross(&edge1, &edge2);
        let ghost facev = face@;

        let cur_a = acc[ia];
        let upd_a = v3_add(&cur_a, &face);
        let ra = vstd::std_specs::vec::vec_index_mut(&mut acc, ia);
        *ra = upd_a;
        let ghost acc1 = acc@;

        let cur_b = acc[ib];
        let upd_b = v3_add(&cur_b, &face);
        let rb = vstd::std_specs::vec::vec_index_mut(&mut acc, ib);
        *rb = upd_b;
        let ghost acc2 = acc@;

        let cur_c = acc[ic];
        let upd_c = v3_add(&cur_c, &face);
        let rc = vstd::std_specs::vec::vec_index_mut(&mut acc, ic);
        *rc = upd_c;

        proof {
            assert(facev == spec_face_normal(
                positions@[ia as int]@,
                positions@[ib as int]@,
                positions@[ic as int]@,
            ));
            assert forall|v: int| 0 <= v < acc@.len() implies (#[trigger] acc@[v])@ == spec_accum(
                positions@,
                indices@,
                t + 1,
                v,
            ) by {
                let s0 = spec_accum(positions@, indices@, t as int, v);
                let s1 = if ia == v {
                    v3_add_of(s0, facev)
                } else {
                    s0
                };
                let s2 = if ib == v {
                    v3_add_of(s1, facev)
                } else {
                    s1
                };
                assert(pre_acc[v]@ == s0);
                assert(acc1[v]@ == s1);
                assert(acc2[v]@ == s2);
            }
        }
        t += 1;
    }

    let mut out: Vec<[u32; 3]> = Vec::new();
    let mut v: usize = 0;
    while v < acc.len()
        invariant
            v <= acc@.len(),
            acc@.len() == positions@.len(),
            tri_count == indices@.len() as int / 3,
            out@.len() == v,
            forall|w: int|
                0 <= w < acc@.len() ==> (#[trigger] acc@[w])@ == spec_accum(
                    positions@,
                    indices@,
                    tri_count as int,
                    w,
                ),
            forall|w: int|
                0 <= w < v ==> (#[trigger] out@[w])@ == v3_normalize_of(
                    spec_accum(positions@, indices@, indices@.len() as int / 3, w),
                ),
        decreases acc@.len() - v,
    {
        let nv = v3_normalize(&acc[v]);
        out.push(nv);
        v += 1;
    }
    out
}

} // verus!
