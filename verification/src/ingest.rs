//! Scene-asset ingestion: the single pass that classifies document nodes,
//! aggregates per-base-name instance lists, prepares meshes for the two
//! rendering variants, and populates the physics world with one fixed body
//! per collider-mesh instance.
//!
//! The node naming convention is the authoring contract: a node named
//! `base.suffix` (first dot splits) is one placed instance of the mesh
//! `base` and carries no geometry of its own; any other name defines
//! geometry under itself.

use vstd::prelude::*;

use crate::ibuf::GpuOp;
use crate::ids::{hash_bytes_to_u64, mesh_key_of, pack_id, spec_id_key, spec_pack_id};
use crate::instance::InstanceRaw;
use crate::extcol::RawHandle;
use crate::mathops::{
    f32_bits_neg, mat4_det_of, mat4_determinant, mat4_srt_of, mat4_to_srt, normal_matrix,
    quat_to_scaled_axis, spec_f32_bits_neg, spec_normal_matrix, spec_translation_mat4, v3_mul,
    v3_mul_of, F32_ONE_BITS,
};
use crate::mathops::v3_normalize_of;
use crate::normals::{compute_normals, spec_accum};
use crate::physics::{attach_collider, insert_fixed_body, try_trimesh_collider};
use crate::scene::Scene;

verus! {

/// The byte a name splits on.
pub const NAME_SEPARATOR: u8 = 46u8;

/// The position of the first separator in a name, or the name's length if
/// it has none.
pub open spec fn spec_dot_pos(name: Seq<u8>) -> int
    decreases name.len(),
{
    if name.len() == 0 {
        0
    } else if name[0] == NAME_SEPARATOR {
        0
    } else {
        1 + spec_dot_pos(name.drop_first())
    }
}

/// Whether a name is an instance reference (holds a separator).
pub open spec fn spec_is_instance_ref(name: Seq<u8>) -> bool {
    spec_dot_pos(name) < name.len()
}

/// The base part of a name: everything before the first separator (the
/// whole name when there is none).
pub open spec fn spec_base_name(name: Seq<u8>) -> Seq<u8> {
    name.take(spec_dot_pos(name))
}

/// The first separator never sits past the name's end, and everything
/// before it is no separator.
pub proof fn lemma_dot_pos(name: Seq<u8>)
    ensures
        0 <= spec_dot_pos(name) <= name.len(),
        spec_dot_pos(name) < name.len() ==> name[spec_dot_pos(name)] == NAME_SEPARATOR,
        forall|j: int| 0 <= j < spec_dot_pos(name) ==> name[j] != NAME_SEPARATOR,
    decreases name.len(),
{
    if name.len() > 0 && name[0] != NAME_SEPARATOR {
        lemma_dot_pos(name.drop_first());
        assert forall|j: int| 0 <= j < spec_dot_pos(name) implies name[j] != NAME_SEPARATOR by {
            if j > 0 {
                assert(name.drop_first()[j - 1] != NAME_SEPARATOR);
            }
        }
    }
}

/// Split a node name at its first separator: `Some(base)` for an instance
/// reference named `base.suffix`, `None` for a geometry-defining name.
pub fn split_node_name(name: &[u8]) -> (r: Option<Vec<u8>>)
    ensures
        r is Some <==> spec_is_instance_ref(name@),
        r is Some ==> r.unwrap()@ == spec_base_name(name@),
{
    let mut i: usize = 0;
    while i < name.len()
        invariant
            i <= name@.len(),
            forall|j: int| 0 <= j < i ==> name@[j] != NAME_SEPARATOR,
        decreases name@.len() - i,
    {
        if name[i] == NAME_SEPARATOR {
            let mut base: Vec<u8> = Vec::new();
            let mut j: usize = 0;
            while j < i
                invariant
                    j <= i,
                    i < name@.len(),
                    base@ == name@.take(j as int),
                decreases i - j,
            {
                base.push(name[j]);
                proof {
                    assert(base@ =~= name@.take(j + 1));
                }
                j += 1;
            }
            proof {
                lemma_dot_pos(name@);
                assert(spec_dot_pos(name@) == i) by {
                    if spec_dot_pos(name@) < i {
                        assert(name@[spec_dot_pos(name@)] == NAME_SEPARATOR);
                    }
                }
            }
            return Some(base);
        }
        i += 1;
    }
    proof {
        lemma_dot_pos(name@);
        assert(spec_dot_pos(name@) == name@.len()) by {
            if spec_dot_pos(name@) < name@.len() {
                assert(name@[spec_dot_pos(name@)] == NAME_SEPARATOR);
            }
        }
    }
    None
}

/// The index list with each complete triangle's second and third corners
/// exchanged (the parity-correcting winding flip for mirrored instances);
/// indices past the last complete triangle stay put.
pub open spec fn spec_flip_winding(idx: Seq<u16>) -> Seq<u16> {
    Seq::new(
        idx.len(),
        |i: int|
            if i < 3 * (idx.len() as int / 3) {
                if i % 3 == 1 {
                    idx[i + 1]
                } else if i % 3 == 2 {
                    idx[i - 1]
                } else {
                    idx[i]
                }
            } else {
                idx[i]
            },
    )
}

/// The mirror-instance winding-flip law: in the flipped list every complete
/// triangle keeps its first corner and exchanges its second and third.
pub proof fn lemma_winding_flip(idx: Seq<u16>, t: int)
    requires
        0 <= t,
        3 * t + 2 < idx.len(),
    ensures
        spec_flip_winding(idx)[3 * t] == idx[3 * t],
        spec_flip_winding(idx)[3 * t + 1] == idx[3 * t + 2],
        spec_flip_winding(idx)[3 * t + 2] == idx[3 * t + 1],
{
    assert((3 * t) % 3 == 0 && (3 * t + 1) % 3 == 1 && (3 * t + 2) % 3 == 2) by (nonlinear_arith);
    assert(3 * t + 2 < 3 * (idx.len() as int / 3)) by (nonlinear_arith)
        requires
            3 * t + 2 < idx.len(),
    ;
}

/// Executable winding flip.
pub fn flip_winding(idx: &Vec<u16>) -> (r: Vec<u16>)
    ensures
        r@ == spec_flip_winding(idx@),
{
    let n = idx.len();
    let complete = 3 * (n / 3);
    proof {
        assert((n as int / 3) * 3 <= n as int);
    }
    let mut r: Vec<u16> = Vec::new();
    let mut i: usize = 0;
    while i < n
        invariant
            i <= n,
            n == idx@.len(),
            n <= usize::MAX,
            complete == 3 * (n as int / 3),
            complete <= n,
            r@.len() == i,
            forall|j: int| 0 <= j < i ==> r@[j] == spec_flip_winding(idx@)[j],
        decreases n - i,
    {
        let v = if i < complete {
            if i % 3 == 1 {
                idx[i + 1]
            } else if i % 3 == 2 {
                idx[i - 1]
            } else {
                idx[i]
            }
        } else {
            idx[i]
        };
        r.push(v);
        i += 1;
    }
    proof {
        assert(r@ =~= spec_flip_winding(idx@));
    }
    r
}

/// The triangle triples a final index list yields, widened for the physics
/// engine: triple `t` is indices `3t`, `3t+1`, `3t+2`.
pub open spec fn spec_triangles(idx: Seq<u16>) -> Seq<[u32; 3]> {
    Seq::new((idx.len() as int / 3) as nat, |t: int| [idx[3 * t] as u32, idx[3 * t + 1] as u32, idx[3 * t + 2] as u32])
}

/// Group a final index list into widened triangle triples.
pub fn triangles_from_indices(idx: &Vec<u16>) -> (r: Vec<[u32; 3]>)
    ensures
        r@ == spec_triangles(idx@),
        forall|t: int, c: int|
            0 <= t < r@.len() && 0 <= c < 3 ==> (#[trigger] r@[t]@[c]) as int == idx@[3 * t
                + c] as int,
{
    let n = idx.len() / 3;
    let mut r: Vec<[u32; 3]> = Vec::new();
    let mut t: usize = 0;
    while t < n
        invariant
            t <= n,
            idx@.len() <= usize::MAX,
            n == idx@.len() as int / 3,
            r@.len() == t,
            forall|j: int| 0 <= j < t ==> r@[j] == spec_triangles(idx@)[j],
            forall|j: int, c: int|
                0 <= j < t && 0 <= c < 3 ==> (#[trigger] r@[j]@[c]) as int == idx@[3 * j
                    + c] as int,
        decreases n - t,
    {
        proof {
            assert((idx@.len() as int / 3) * 3 <= idx@.len() as int);
            assert(3 * (t as int) + 2 < idx@.len() as int);
        }
        let tri = [idx[3 * t] as u32, idx[3 * t + 1] as u32, idx[3 * t + 2] as u32];
        r.push(tri);
        proof {
            assert(r@[t as int] == spec_triangles(idx@)[t as int]);
            assert(tri@[0] == idx@[3 * t] as u32 && tri@[1] == idx@[3 * t + 1] as u32 && tri@[2]
                == idx@[3 * t + 2] as u32);
        }
        t += 1;
    }
    proof {
        assert(r@ =~= spec_triangles(idx@));
    }
    r
}

/// The winding flip reuses the same indices, so it keeps any bound they
/// satisfy.
pub proof fn lemma_flip_winding_in_bounds(idx: Seq<u16>, n: int)
    requires
        forall|j: int| 0 <= j < idx.len() ==> (idx[j] as int) < n,
    ensures
        forall|j: int| 0 <= j < idx.len() ==> (spec_flip_winding(idx)[j] as int) < n,
{
    assert forall|j: int| 0 <= j < idx.len() implies (spec_flip_winding(idx)[j] as int) < n by {
        assert((idx.len() as int / 3) * 3 <= idx.len() as int);
        if j < 3 * (idx.len() as int / 3) {
            if j % 3 == 1 {
                assert(spec_flip_winding(idx)[j] == idx[j + 1]);
            } else if j % 3 == 2 {
                assert(spec_flip_winding(idx)[j] == idx[j - 1]);
            }
        }
    }
}

/// Scale local vertex positions componentwise by a decomposed scale.
pub fn scale_positions(positions: &Vec<[u32; 3]>, scale: &[u32; 3]) -> (r: Vec<[u32; 3]>)
    ensures
        r@.len() == positions@.len(),
        forall|i: int|
            0 <= i < r@.len() ==> (#[trigger] r@[i])@ == v3_mul_of(positions@[i]@, scale@),
{
    let mut r: Vec<[u32; 3]> = Vec::new();
    let mut i: usize = 0;
    while i < positions.len()
        invariant
            i <= positions@.len(),
            r@.len() == i,
            forall|j: int|
                0 <= j < i ==> (#[trigger] r@[j])@ == v3_mul_of(positions@[j]@, scale@),
        decreases positions@.len() - i,
    {
        let p = positions[i];
        r.push(v3_mul(&p, scale));
        i += 1;
    }
    r
}

/// A vertex of the flat-colored rendering variant, entries as f32 bit
/// patterns.
#[derive(Clone, Copy, Debug, PartialEq)]
pub struct ColoredVertex {
    pub position: [u32; 3],
    pub color: [u32; 3],
    pub normal: [u32; 3],
}

/// A vertex of the textured rendering variant, entries as f32 bit
/// patterns.
#[derive(Clone, Copy, Debug, PartialEq)]
pub struct TexturedVertex {
    pub position: [u32; 3],
    pub tex_coords: [u32; 2],
    pub normal: [u32; 3],
}

/// One mesh primitive of a document node, already reduced to plain values:
/// attribute arrays as bit patterns, and the byte range of an embedded
/// base-color image when the material carries one (an external image
/// reference is `None`: it is not resolved and the primitive falls through
/// to the colored path).
pub struct PrimitiveData {
    pub indices: Option<Vec<u16>>,
    pub positions: Vec<[u32; 3]>,
    pub normals: Option<Vec<[u32; 3]>>,
    pub tex_coords: Option<Vec<[u32; 2]>>,
    pub texture_view: Option<(usize, usize)>,
    pub vertex_colors: Option<Vec<[u32; 3]>>,
    pub base_color: [u32; 3],
}

/// One mesh-carrying, named node of the document: its name bytes, its
/// node-local transform, and its primitives.
pub struct NodeData {
    pub name: Vec<u8>,
    pub transform: [u32; 16],
    pub primitives: Vec<PrimitiveData>,
}

/// The render-side payload a primitive was classified into.
pub enum MeshPayload {
    Colored { vertices: Vec<ColoredVertex> },
    Textured { vertices: Vec<TexturedVertex>, image: Vec<u8> },
}

/// A primitive made ready for upload: its classified vertices, its index
/// list, and its raw positions kept for collider generation.
pub struct PreparedMesh {
    pub payload: MeshPayload,
    pub indices: Vec<u16>,
    pub positions: Vec<[u32; 3]>,
}

/// Whether two byte strings are equal.
pub fn bytes_eq(a: &[u8], b: &[u8]) -> (r: bool)
    ensures
        r == (a@ == b@),
{
    if a.len() != b.len() {
        proof {
            assert(a@ != b@);
        }
        return false;
    }
    let mut i: usize = 0;
    while i < a.len()
        invariant
            a@.len() == b@.len(),
            i <= a@.len(),
            forall|j: int| 0 <= j < i ==> a@[j] == b@[j],
        decreases a@.len() - i,
    {
        if a[i] != b[i] {
            proof {
                assert(a@[i as int] != b@[i as int]);
            }
            return false;
        }
        i += 1;
    }
    proof {
        assert(a@ =~= b@);
    }
    true
}

/// Interleave colored vertices; the result length is the shortest input's.
pub fn build_colored_vertices(
    positions: &Vec<[u32; 3]>,
    colors: &Vec<[u32; 3]>,
    normals: &Vec<[u32; 3]>,
) -> (r: Vec<ColoredVertex>)
    ensures
        r@.len() == vstd::math::min(
            positions@.len() as int,
            vstd::math::min(colors@.len() as int, normals@.len() as int),
        ),
        forall|i: int|
            0 <= i < r@.len() ==> (#[trigger] r@[i]) == (ColoredVertex {
                position: positions@[i],
                color: colors@[i],
                normal: normals@[i],
            }),
{
    let mut r: Vec<ColoredVertex> = Vec::new();
    let mut i: usize = 0;
    while i < positions.len() && i < colors.len() && i < normals.len()
        invariant
            i <= positions@.len() && i <= colors@.len() && i <= normals@.len(),
            r@.len() == i,
            forall|j: int|
                0 <= j < i ==> (#[trigger] r@[j]) == (ColoredVertex {
                    position: positions@[j],
                    color: colors@[j],
                    normal: normals@[j],
                }),
        decreases positions@.len() - i,
    {
        r.push(
            ColoredVertex { position: positions[i], color: colors[i], normal: normals[i] },
        );
        i += 1;
    }
    r
}

/// Interleave textured vertices; the result length is the shortest input's.
pub fn build_textured_vertices(
    positions: &Vec<[u32; 3]>,
    tex_coords: &Vec<[u32; 2]>,
    normals: &Vec<[u32; 3]>,
) -> (r: Vec<TexturedVertex>)
    ensures
        r@.len() == vstd::math::min(
            positions@.len() as int,
            vstd::math::min(tex_coords@.len() as int, normals@.len() as int),
        ),
        forall|i: int|
            0 <= i < r@.len() ==> (#[trigger] r@[i]) == (TexturedVertex {
                position: positions@[i],
                tex_coords: tex_coords@[i],
                normal: normals@[i],
            }),
{
    let mut r: Vec<TexturedVertex> = Vec::new();
    let mut i: usize = 0;
    while i < positions.len() && i < tex_coords.len() && i < normals.len()
        invariant
            i <= positions@.len() && i <= tex_coords@.len() && i <= normals@.len(),
            r@.len() == i,
            forall|j: int|
                0 <= j < i ==> (#[trigger] r@[j]) == (TexturedVertex {
                    position: positions@[j],
                    tex_coords: tex_coords@[j],
                    normal: normals@[j],
                }),
        decreases positions@.len() - i,
    {
        r.push(
            TexturedVertex {
                position: positions[i],
                tex_coords: tex_coords[i],
                normal: normals[i],
            },
        );
        i += 1;
    }
    r
}

/// Copy a sub-range out of the embedded binary blob.
fn copy_blob_range(blob: &Vec<u8>, offset: usize, len: usize) -> (r: Vec<u8>)
    requires
        offset + len <= blob@.len(),
    ensures
        r@ == blob@.subrange(offset as int, offset as int + len as int),
{
    let mut r: Vec<u8> = Vec::new();
    let total = blob.len();
    proof {
        assert(blob@.len() == total);
    }
    let mut i: usize = 0;
    while i < len
        invariant
            i <= len,
            blob@.len() <= usize::MAX,
            offset + len <= blob@.len(),
            r@.len() == i,
            forall|j: int| 0 <= j < i ==> r@[j] == blob@[offset + j],
        decreases len - i,
    {
        r.push(blob[offset + i]);
        i += 1;
    }
    proof {
        assert(r@ =~= blob@.subrange(offset as int, offset as int + len as int));
    }
    r
}

/// Whether every index addresses a position.
fn indices_in_bounds(indices: &Vec<u16>, n_positions: usize) -> (r: bool)
    ensures
        r == forall|i: int| 0 <= i < indices@.len() ==> (indices@[i] as int) < n_positions,
{
    let mut i: usize = 0;
    while i < indices.len()
        invariant
            i <= indices@.len(),
            forall|j: int| 0 <= j < i ==> (indices@[j] as int) < n_positions,
        decreases indices@.len() - i,
    {
        if !((indices[i] as usize) < n_positions) {
            return false;
        }
        i += 1;
    }
    true
}

/// A uniform per-vertex color list from the material's base color factor.
fn splat_color(color: &[u32; 3], n: usize) -> (r: Vec<[u32; 3]>)
    ensures
        r@.len() == n,
        forall|i: int| 0 <= i < n ==> (#[trigger] r@[i]) == *color,
{
    let mut r: Vec<[u32; 3]> = Vec::new();
    let mut i: usize = 0;
    while i < n
        invariant
            i <= n,
            r@.len() == i,
            forall|j: int| 0 <= j < i ==> (#[trigger] r@[j]) == *color,
        decreases n - i,
    {
        r.push(*color);
        i += 1;
    }
    r
}

/// Whether a primitive carries enough to prepare: an index list, at least
/// one position, and — when normals must be generated — every index in
/// range of the positions.
pub open spec fn spec_primitive_ok(prim: PrimitiveData) -> bool {
    &&& prim.indices is Some
    &&& prim.positions@.len() > 0
    &&& (prim.normals is Some || forall|i: int|
        0 <= i < prim.indices.unwrap()@.len() ==> (prim.indices.unwrap()@[i] as int)
            < prim.positions@.len())
}

/// Whether a node defines geometry the pipeline will register: a
/// geometry-naming node with at least one preparable primitive.
pub open spec fn spec_geometry_node(n: NodeData) -> bool {
    &&& !spec_is_instance_ref(n.name@)
    &&& exists|p: int| 0 <= p < n.primitives@.len() && spec_primitive_ok(#[trigger] n.primitives@[p])
}

/// Whether a primitive classifies as textured against the given blob:
/// texture coordinates are present and the material's base-color image is
/// an embedded byte range that lies within the blob.
pub open spec fn spec_is_textured(prim: PrimitiveData, blob: Seq<u8>) -> bool {
    &&& prim.tex_coords is Some
    &&& prim.texture_view is Some
    &&& (prim.texture_view.unwrap().0 + prim.texture_view.unwrap().1 <= blob.len())
}

/// The normals a primitive renders with: the authored ones, or smooth
/// generated ones.
pub open spec fn spec_used_normal(prim: PrimitiveData, i: int) -> Seq<u32> {
    if prim.normals is Some {
        prim.normals.unwrap()@[i]@
    } else {
        v3_normalize_of(
            spec_accum(
                prim.positions@,
                prim.indices.unwrap()@,
                prim.indices.unwrap()@.len() as int / 3,
                i,
            ),
        )
    }
}

/// Classify and prepare one primitive: skipped (`None`) when it has no
/// index list, no positions, or — when normals must be generated — an
/// index out of range. A textured-capable primitive whose image is not an
/// embedded in-range view falls through to the colored path, whose colors
/// are the authored per-vertex colors or the splatted base color factor.
pub fn process_primitive(prim: &PrimitiveData, blob: &Vec<u8>) -> (r: Option<PreparedMesh>)
    ensures
        ({
            &&& (r is Some <==> spec_primitive_ok(*prim))
            &&& r is Some ==> {
                let p = r.unwrap();
                &&& p.indices@ == prim.indices.unwrap()@
                &&& p.positions@ == prim.positions@
                &&& (p.payload is Textured <==> spec_is_textured(*prim, blob@))
                &&& match p.payload {
                    MeshPayload::Textured { vertices, image } => {
                        &&& image@ == blob@.subrange(
                            prim.texture_view.unwrap().0 as int,
                            prim.texture_view.unwrap().0 + prim.texture_view.unwrap().1,
                        )
                        &&& forall|i: int|
                            0 <= i < vertices@.len() ==> (#[trigger] vertices@[i]).position
                                == prim.positions@[i] && vertices@[i].tex_coords
                                == prim.tex_coords.unwrap()@[i] && vertices@[i].normal@
                                == spec_used_normal(*prim, i)
                    },
                    MeshPayload::Colored { vertices } => {
                        forall|i: int|
                            0 <= i < vertices@.len() ==> (#[trigger] vertices@[i]).position
                                == prim.positions@[i] && vertices@[i].normal@ == spec_used_normal(
                                *prim,
                                i,
                            ) && vertices@[i].color == (if prim.vertex_colors is Some {
                                prim.vertex_colors.unwrap()@[i]
                            } else {
                                prim.base_color
                            })
                    },
                }
            }
        }),
{
    let indices = match &prim.indices {
        Some(ix) => ix,
        None => {
            return None;
        },
    };
    if prim.positions.len() == 0 {
        return None;
    }
    let normals: Vec<[u32; 3]> = match &prim.normals {
        Some(ns) => copy_arrays3(ns),
        None => {
            if !indices_in_bounds(indices, prim.positions.len()) {
                return None;
            }
            compute_normals(&prim.positions, indices)
        },
    };
    let indices_copy = copy_u16(indices);
    let positions_copy = copy_arrays3(&prim.positions);
    if let Some(tc) = &prim.tex_coords {
        if let Some((off, len)) = prim.texture_view {
            if off <= blob.len() && len <= blob.len() - off {
                let image = copy_blob_range(blob, off, len);
                let vertices = build_textured_vertices(&prim.positions, tc, &normals);
                return Some(
                    PreparedMesh {
                        payload: MeshPayload::Textured { vertices, image },
                        indices: indices_copy,
                        positions: positions_copy,
                    },
                );
            }
        }
    }
    let colors: Vec<[u32; 3]> = match &prim.vertex_colors {
        Some(cs) => copy_arrays3(cs),
        None => splat_color(&prim.base_color, prim.positions.len()),
    };
    let vertices = build_colored_vertices(&prim.positions, &colors, &normals);
    Some(
        PreparedMesh {
            payload: MeshPayload::Colored { vertices },
            indices: indices_copy,
            positions: positions_copy,
        },
    )
}

/// A copy of an index vector.
fn copy_u16(v: &Vec<u16>) -> (r: Vec<u16>)
    ensures
        r@ == v@,
{
    let mut r: Vec<u16> = Vec::new();
    let mut i: usize = 0;
    while i < v.len()
        invariant
            i <= v@.len(),
            r@ == v@.take(i as int),
        decreases v@.len() - i,
    {
        r.push(v[i]);
        proof {
            assert(r@ =~= v@.take(i + 1));
        }
        i += 1;
    }
    proof {
        assert(v@.take(v@.len() as int) =~= v@);
    }
    r
}

/// A copy of a vector of bit-pattern triples.
fn copy_arrays3(v: &Vec<[u32; 3]>) -> (r: Vec<[u32; 3]>)
    ensures
        r@ == v@,
{
    let mut r: Vec<[u32; 3]> = Vec::new();
    let mut i: usize = 0;
    while i < v.len()
        invariant
            i <= v@.len(),
            r@ == v@.take(i as int),
        decreases v@.len() - i,
    {
        r.push(v[i]);
        proof {
            assert(r@ =~= v@.take(i + 1));
        }
        i += 1;
    }
    proof {
        assert(v@.take(v@.len() as int) =~= v@);
    }
    r
}

/// Whether a node is an instance reference of the given base name.
pub open spec fn spec_node_is_ref_of(n: NodeData, base: Seq<u8>) -> bool {
    spec_is_instance_ref(n.name@) && spec_base_name(n.name@) == base
}

/// The model matrices of the instance-reference nodes of a base name, in
/// node order.
pub open spec fn spec_ref_models(nodes: Seq<NodeData>, base: Seq<u8>) -> Seq<[u32; 16]>
    decreases nodes.len(),
{
    if nodes.len() == 0 {
        Seq::empty()
    } else {
        let prefix = spec_ref_models(nodes.drop_last(), base);
        if spec_node_is_ref_of(nodes.last(), base) {
            prefix.push(nodes.last().transform)
        } else {
            prefix
        }
    }
}

/// A base name no node references has no instances.
proof fn lemma_ref_models_empty(nodes: Seq<NodeData>, base: Seq<u8>)
    requires
        forall|k: int| 0 <= k < nodes.len() ==> !spec_node_is_ref_of(#[trigger] nodes[k], base),
    ensures
        spec_ref_models(nodes, base).len() == 0,
    decreases nodes.len(),
{
    if nodes.len() > 0 {
        lemma_ref_models_empty(nodes.drop_last(), base);
    }
}

/// Group the instance-reference nodes by base name: one entry per base, in
/// first-appearance order, holding one instance record per referencing node
/// in node order — the record's model matrix is the node's transform, its
/// normal matrix derived from it. Geometry nodes contribute nothing here.
pub fn collect_instances(nodes: &Vec<NodeData>) -> (r: Vec<(Vec<u8>, Vec<InstanceRaw>)>)
    ensures
        forall|a: int, b: int| 0 <= a < b < r@.len() ==> r@[a].0@ != r@[b].0@,
        forall|i: int|
            0 <= i < nodes@.len() && spec_is_instance_ref((#[trigger] nodes@[i]).name@)
                ==> exists|j: int|
                0 <= j < r@.len() && (#[trigger] r@[j].0@) == spec_base_name(nodes@[i].name@),
        forall|j: int|
            0 <= j < r@.len() ==> {
                let models = spec_ref_models(nodes@, (#[trigger] r@[j]).0@);
                &&& r@[j].1@.len() == models.len()
                &&& forall|m: int|
                    0 <= m < models.len() ==> (#[trigger] r@[j].1@[m]).model == models[m]
                        && r@[j].1@[m].normal@ == spec_normal_matrix(models[m]@)
            },
{
    let mut r: Vec<(Vec<u8>, Vec<InstanceRaw>)> = Vec::new();
    let mut i: usize = 0;
    while i < nodes.len()
        invariant
            i <= nodes@.len(),
            forall|a: int, b: int| 0 <= a < b < r@.len() ==> r@[a].0@ != r@[b].0@,
            forall|ii: int|
                0 <= ii < i && spec_is_instance_ref((#[trigger] nodes@[ii]).name@)
                    ==> exists|j: int|
                    0 <= j < r@.len() && (#[trigger] r@[j].0@) == spec_base_name(
                        nodes@[ii].name@,
                    ),
            forall|j: int|
                0 <= j < r@.len() ==> {
                    let models = spec_ref_models(nodes@.take(i as int), (#[trigger] r@[j]).0@);
                    &&& r@[j].1@.len() == models.len()
                    &&& forall|m: int|
                        0 <= m < models.len() ==> (#[trigger] r@[j].1@[m]).model == models[m]
                            && r@[j].1@[m].normal@ == spec_normal_matrix(models[m]@)
                },
        decreases nodes@.len() - i,
    {
        let ghost prev = r@;
        let node = &nodes[i];
        proof {
            assert(nodes@.take(i + 1).drop_last() =~= nodes@.take(i as int));
            assert(nodes@.take(i + 1).last() == nodes@[i as int]);
        }
        match split_node_name(node.name.as_slice()) {
            Some(base) => {
                let model = node.transform;
                let normal = normal_matrix(&model);
                let rec = InstanceRaw { model, normal };
                let mut found: Option<usize> = None;
                let mut j: usize = 0;
                while j < r.len()
                    invariant
                        j <= r@.len(),
                        found is Some ==> found.unwrap() < r@.len() && r@[
                            found.unwrap() as int
                        ].0@ == base@,
                        found is None ==> forall|jj: int| 0 <= jj < j ==> r@[jj].0@ != base@,
                    decreases r@.len() - j + (if found is Some { 0int } else { 1int }),
                {
                    if found.is_none() && bytes_eq(r[j].0.as_slice(), base.as_slice()) {
                        found = Some(j);
                    }
                    j += 1;
                }
                match found {
                    Some(fj) => {
                        let entry = vstd::std_specs::vec::vec_index_mut(&mut r, fj);
                        entry.1.push(rec);
                        proof {
                            assert forall|jj: int| 0 <= jj < r@.len() implies {
                                let models = spec_ref_models(
                                    nodes@.take(i + 1),
                                    (#[trigger] r@[jj]).0@,
                                );
                                &&& r@[jj].1@.len() == models.len()
                                &&& forall|m: int|
                                    0 <= m < models.len() ==> (#[trigger] r@[jj].1@[m]).model
                                        == models[m] && r@[jj].1@[m].normal@ == spec_normal_matrix(
                                        models[m]@,
                                    )
                            } by {
                                if jj == fj {
                                    assert(spec_node_is_ref_of(nodes@[i as int], r@[jj].0@));
                                } else {
                                    assert(r@[jj] == prev[jj]);
                                    assert(r@[jj].0@ != base@);
                                    assert(!spec_node_is_ref_of(nodes@[i as int], r@[jj].0@));
                                }
                            }
                            assert forall|ii: int|
                                0 <= ii < i + 1 && spec_is_instance_ref(
                                    (#[trigger] nodes@[ii]).name@,
                                ) implies exists|j2: int|
                                0 <= j2 < r@.len() && (#[trigger] r@[j2].0@) == spec_base_name(
                                    nodes@[ii].name@,
                                ) by {
                                if ii < i {
                                    let w = choose|w: int|
                                        0 <= w < prev.len() && (#[trigger] prev[w].0@)
                                            == spec_base_name(nodes@[ii].name@);
                                    assert(r@[w].0@ == spec_base_name(nodes@[ii].name@));
                                } else {
                                    assert(r@[fj as int].0@ == spec_base_name(
                                        nodes@[i as int].name@,
                                    ));
                                }
                            }
                        }
                    },
                    None => {
                        let mut recs: Vec<InstanceRaw> = Vec::new();
                        recs.push(rec);
                        r.push((base, recs));
                        proof {
                            assert forall|jj: int| 0 <= jj < r@.len() implies {
                                let models = spec_ref_models(
                                    nodes@.take(i + 1),
                                    (#[trigger] r@[jj]).0@,
                                );
                                &&& r@[jj].1@.len() == models.len()
                                &&& forall|m: int|
                                    0 <= m < models.len() ==> (#[trigger] r@[jj].1@[m]).model
                                        == models[m] && r@[jj].1@[m].normal@ == spec_normal_matrix(
                                        models[m]@,
                                    )
                            } by {
                                if jj == r@.len() - 1 {
                                    assert(r@[jj].0@ == base@);
                                    assert(spec_node_is_ref_of(nodes@[i as int], base@));
                                    assert forall|k: int|
                                        0 <= k < i implies !spec_node_is_ref_of(
                                        #[trigger] nodes@.take(i as int)[k],
                                        base@,
                                    ) by {
                                        if spec_node_is_ref_of(nodes@[k], base@) {
                                            assert(exists|w: int|
                                                0 <= w < prev.len() && (#[trigger] prev[w].0@)
                                                    == spec_base_name(nodes@[k].name@));
                                        }
                                    }
                                    lemma_ref_models_empty(nodes@.take(i as int), base@);
                                } else {
                                    assert(r@[jj] == prev[jj]);
                                    assert(r@[jj].0@ != base@);
                                    assert(!spec_node_is_ref_of(nodes@[i as int], r@[jj].0@));
                                }
                            }
                            assert forall|ii: int|
                                0 <= ii < i + 1 && spec_is_instance_ref(
                                    (#[trigger] nodes@[ii]).name@,
                                ) implies exists|j2: int|
                                0 <= j2 < r@.len() && (#[trigger] r@[j2].0@) == spec_base_name(
                                    nodes@[ii].name@,
                                ) by {
                                if ii < i {
                                    let w = choose|w: int|
                                        0 <= w < prev.len() && (#[trigger] prev[w].0@)
                                            == spec_base_name(nodes@[ii].name@);
                                    assert(r@[w].0@ == spec_base_name(nodes@[ii].name@));
                                } else {
                                    assert(r@[r@.len() - 1].0@ == spec_base_name(
                                        nodes@[i as int].name@,
                                    ));
                                }
                            }
                        }
                    },
                }
            },
            None => {
                proof {
                    assert forall|jj: int| 0 <= jj < r@.len() implies {
                        let models = spec_ref_models(nodes@.take(i + 1), (#[trigger] r@[jj]).0@);
                        &&& r@[jj].1@.len() == models.len()
                        &&& forall|m: int|
                            0 <= m < models.len() ==> (#[trigger] r@[jj].1@[m]).model == models[m]
                                && r@[jj].1@[m].normal@ == spec_normal_matrix(models[m]@)
                    } by {
                        assert(!spec_node_is_ref_of(nodes@[i as int], r@[jj].0@));
                    }
                    assert forall|ii: int|
                        0 <= ii < i + 1 && spec_is_instance_ref(
                            (#[trigger] nodes@[ii]).name@,
                        ) implies exists|j2: int|
                        0 <= j2 < r@.len() && (#[trigger] r@[j2].0@) == spec_base_name(
                            nodes@[ii].name@,
                        ) by {
                        if ii < i {
                            let w = choose|w: int|
                                0 <= w < prev.len() && (#[trigger] prev[w].0@) == spec_base_name(
                                    nodes@[ii].name@,
                                );
                            assert(r@[w].0@ == spec_base_name(nodes@[ii].name@));
                        }
                    }
                }
            },
        }
        i += 1;
    }
    proof {
        assert(nodes@.take(nodes@.len() as int) =~= nodes@);
    }
    r
}


/// The scaled local points one instance's collider uses: each position
/// multiplied componentwise by the model matrix's decomposed scale.
pub open spec fn spec_instance_points(positions: Seq<[u32; 3]>, model: Seq<u32>) -> Seq<Seq<u32>> {
    Seq::new(positions.len(), |j: int| v3_mul_of(positions[j]@, mat4_srt_of(model).0))
}

/// The index list one instance's collider uses: winding flipped exactly
/// when the model matrix's determinant is negative.
pub open spec fn spec_instance_tris_source(indices: Seq<u16>, model: Seq<u32>) -> Seq<u16> {
    if spec_f32_bits_neg(mat4_det_of(model)) {
        spec_flip_winding(indices)
    } else {
        indices
    }
}

/// The triangle triples one instance's collider is built from.
pub open spec fn spec_instance_tris(indices: Seq<u16>, model: Seq<u32>) -> Seq<[u32; 3]> {
    spec_triangles(spec_instance_tris_source(indices, model))
}

/// Whether the engine accepts one instance's collider geometry.
pub open spec fn spec_instance_accepted(
    positions: Seq<[u32; 3]>,
    indices: Seq<u16>,
    model: Seq<u32>,
) -> bool {
    crate::physics::trimesh_accepted(
        spec_instance_points(positions, model),
        crate::mathops::spec_rows3(spec_instance_tris(indices, model)),
    )
}

/// How many of the first `upto` instances are built: those in a live slot
/// whose geometry the engine accepts.
pub open spec fn spec_built_count(
    positions: Seq<[u32; 3]>,
    indices: Seq<u16>,
    models: Seq<[u32; 16]>,
    live: nat,
    upto: int,
) -> nat
    decreases upto,
{
    if upto <= 0 {
        0
    } else {
        spec_built_count(positions, indices, models, live, upto - 1) + (if upto - 1 < live
            && spec_instance_accepted(positions, indices, models[upto - 1]@) {
            1nat
        } else {
            0nat
        })
    }
}

/// Whether some geometry-naming node carries this exact name.
pub open spec fn spec_geometry_named(nodes: Seq<NodeData>, nm: Seq<u8>) -> bool {
    exists|w: int|
        0 <= w < nodes.len() && !spec_is_instance_ref((#[trigger] nodes[w]).name@)
            && nodes[w].name@ == nm
}

/// A node index witnessing `spec_geometry_named`.
proof fn lemma_pick_geometry_named(nodes: Seq<NodeData>, nm: Seq<u8>) -> (w: int)
    requires
        spec_geometry_named(nodes, nm),
    ensures
        0 <= w < nodes.len(),
        !spec_is_instance_ref(nodes[w].name@),
        nodes[w].name@ == nm,
{
    choose|w: int|
        0 <= w < nodes.len() && !spec_is_instance_ref((#[trigger] nodes[w]).name@)
            && nodes[w].name@ == nm
}

/// Whether the classified list holds an entry under this name.
pub open spec fn spec_has_entry(prepared: Seq<(Vec<u8>, PreparedMesh)>, nm: Seq<u8>) -> bool {
    exists|ee: int| 0 <= ee < prepared.len() && (#[trigger] prepared[ee]).0@ == nm
}

/// An entry index witnessing `spec_has_entry`.
proof fn lemma_pick_entry(prepared: Seq<(Vec<u8>, PreparedMesh)>, nm: Seq<u8>) -> (ee: int)
    requires
        spec_has_entry(prepared, nm),
    ensures
        0 <= ee < prepared.len(),
        prepared[ee].0@ == nm,
{
    choose|ee: int| 0 <= ee < prepared.len() && (#[trigger] prepared[ee]).0@ == nm
}

/// The classified entries name pairwise-distinct meshes.
pub open spec fn spec_names_distinct(prepared: Seq<(Vec<u8>, PreparedMesh)>) -> bool {
    forall|a: int, b: int|
        0 <= a < b < prepared.len() ==> (#[trigger] prepared[a]).0@ != (#[trigger] prepared[b]).0@
}

/// Every classified entry is named after some geometry-naming node.
pub open spec fn spec_names_sound(
    prepared: Seq<(Vec<u8>, PreparedMesh)>,
    nodes: Seq<NodeData>,
) -> bool {
    forall|ee: int|
        0 <= ee < prepared.len() ==> spec_geometry_named(nodes, (#[trigger] prepared[ee]).0@)
}

/// Every geometry node below `upto` with a preparable primitive has a
/// classified entry under its name.
pub open spec fn spec_names_complete(
    prepared: Seq<(Vec<u8>, PreparedMesh)>,
    nodes: Seq<NodeData>,
    upto: int,
) -> bool {
    forall|w: int|
        0 <= w < upto && spec_geometry_node(#[trigger] nodes[w]) ==> spec_has_entry(
            prepared,
            nodes[w].name@,
        )
}

/// Entry names carry classification facts across a list mutation: when
/// every old entry keeps its name and any new entry is named after the
/// current (geometry-naming) node, soundness and completeness of the name
/// list carry over.
proof fn lemma_names_transport(
    before: Seq<(Vec<u8>, PreparedMesh)>,
    after: Seq<(Vec<u8>, PreparedMesh)>,
    nodes: Seq<NodeData>,
    i: int,
)
    requires
        0 <= i < nodes.len(),
        !spec_is_instance_ref(nodes[i].name@),
        before.len() <= after.len(),
        forall|ee: int| 0 <= ee < before.len() ==> (#[trigger] after[ee]).0@ == before[ee].0@,
        forall|ee: int|
            before.len() <= ee < after.len() ==> (#[trigger] after[ee]).0@ == nodes[i].name@,
        spec_names_sound(before, nodes),
        spec_names_complete(before, nodes, i),
    ensures
        spec_names_sound(after, nodes),
        spec_names_complete(after, nodes, i),
{
    assert forall|ee: int| 0 <= ee < after.len() implies spec_geometry_named(
        nodes,
        (#[trigger] after[ee]).0@,
    ) by {
        if ee < before.len() {
            assert(spec_geometry_named(nodes, before[ee].0@));
        } else {
            assert(after[ee].0@ == nodes[i].name@);
            assert(spec_geometry_named(nodes, after[ee].0@)) by {
                assert(0 <= i < nodes.len() && !spec_is_instance_ref((nodes[i]).name@)
                    && nodes[i].name@ == after[ee].0@);
            }
        }
    }
    assert forall|w: int|
        0 <= w < i && spec_geometry_node(#[trigger] nodes[w]) implies spec_has_entry(
        after,
        nodes[w].name@,
    ) by {
        let ee = lemma_pick_entry(before, nodes[w].name@);
        assert(after[ee].0@ == nodes[w].name@);
    }
}

/// What ingestion owes a geometry name: its mesh registered under the
/// name's hash, holding the aggregated instance records (model matrices
/// the referencing nodes' transforms, normal matrices derived from them),
/// or one identity-transform record when no node references it.
pub open spec fn spec_mesh_registered(s: Scene, nodes: Seq<NodeData>, name: Seq<u8>) -> bool {
    let k = mesh_key_of(name);
    let models = spec_ref_models(nodes, name);
    &&& s.has_mesh(k)
    &&& (models.len() > 0 ==> s.mesh_live(k).len() == models.len() && (forall|m: int|
        0 <= m < models.len() ==> (#[trigger] s.mesh_live(k)[m]).model == models[m]
            && s.mesh_live(k)[m].normal@ == spec_normal_matrix(models[m]@)))
    &&& (models.len() == 0 ==> s.mesh_live(k).len() == 1 && s.mesh_live(k)[0].model@
        == spec_translation_mat4(seq![0u32, 0u32, 0u32]) && s.mesh_live(k)[0].normal@ == seq![
        F32_ONE_BITS,
        0u32,
        0u32,
        0u32,
        F32_ONE_BITS,
        0u32,
        0u32,
        0u32,
        F32_ONE_BITS,
    ])
}

/// An identity-transform instance record: identity model matrix, identity
/// normal matrix (a mesh never referenced by an instance node still shows
/// once, at the origin).
pub fn identity_instance() -> (r: InstanceRaw)
    ensures
        r.model@ == crate::mathops::spec_translation_mat4(seq![0u32, 0u32, 0u32]),
        r.normal@ == seq![
            crate::mathops::F32_ONE_BITS,
            0u32,
            0u32,
            0u32,
            crate::mathops::F32_ONE_BITS,
            0u32,
            0u32,
            0u32,
            crate::mathops::F32_ONE_BITS,
        ],
{
    let zero = [0u32, 0u32, 0u32];
    let model = crate::mathops::translation_mat4(&zero);
    proof {
        assert(zero@ =~= seq![0u32, 0u32, 0u32]);
    }
    let one = crate::mathops::F32_ONE_BITS;
    let normal = [one, 0u32, 0u32, 0u32, one, 0u32, 0u32, 0u32, one];
    proof {
        assert(normal@ =~= seq![one, 0u32, 0u32, 0u32, one, 0u32, 0u32, 0u32, one]);
    }
    InstanceRaw { model, normal }
}

/// One prepared mesh together with everything the GPU side needs to upload
/// it: its key, its authoring name, its payload, and the model matrices of
/// its placed instances (also used for collider generation).
pub struct MeshAsset {
    pub key: u64,
    pub name: Vec<u8>,
    pub prepared: PreparedMesh,
    pub instance_models: Vec<[u32; 16]>,
}

impl Scene {
    /// Bulk static population for one collider mesh: for each instance
    /// model matrix, decompose it into scale, rotation and translation;
    /// scale the local vertex positions; flip every triangle's winding when
    /// the matrix's determinant is negative (a mirrored instance must keep
    /// its collision normals outward); build a fixed body at the decomposed
    /// pose with a triangle-mesh collider; and map the composite id
    /// `(key, instance index)` to the new physics object, its body tagged
    /// zero. An instance whose geometry the engine refuses is skipped,
    /// populating the rest; slots past the mesh's live count are skipped
    /// likewise (a key collision in hashed names could conflate two
    /// meshes; the map only ever addresses live slots). An index list that
    /// does not address the positions skips the whole mesh: the engine
    /// does not tolerate it. The result counts the instances built.
    pub fn add_collider_instances(
        &mut self,
        key: u64,
        positions: &Vec<[u32; 3]>,
        indices: &Vec<u16>,
        models: &Vec<[u32; 16]>,
    ) -> (count: usize)
        requires
            old(self).wf(),
            forall|id: u128| old(self).objs().dom().contains(id) ==> spec_id_key(id) != key,
            forall|id: u128| #[trigger]
                old(self).objs().dom().contains(id) ==> old(self).tags().dom().contains(
                    old(self).objs()[id].0,
                ),
        ensures
            final(self).wf(),
            final(self).color_meshes == old(self).color_meshes,
            final(self).texture_meshes == old(self).texture_meshes,
            forall|id: u128| #[trigger]
                final(self).objs().dom().contains(id) ==> final(self).tags().dom().contains(
                    final(self).objs()[id].0,
                ),
            forall|id: u128| #[trigger]
                old(self).objs().dom().contains(id) ==> final(self).objs().dom().contains(id)
                    && final(self).objs()[id] == old(self).objs()[id],
            forall|id: u128| #[trigger]
                final(self).objs().dom().contains(id) && spec_id_key(id) != key ==> old(
                self,
            ).objs().dom().contains(id),
            forall|h: RawHandle| #[trigger]
                old(self).tags().dom().contains(h) ==> final(self).tags().dom().contains(h)
                    && final(self).tags()[h] == old(self).tags()[h],
            forall|h: RawHandle| #[trigger]
                final(self).tags().dom().contains(h) ==> old(self).tags().dom().contains(h)
                    || final(self).tags()[h] == 0,
            !(forall|j: int|
                0 <= j < indices@.len() ==> (indices@[j] as int) < positions@.len()) ==> *final(self)
                == *old(self) && count == 0,
            (forall|j: int| 0 <= j < indices@.len() ==> (indices@[j] as int) < positions@.len())
                ==> {
                let live = old(self).mesh_live(key).len();
                &&& forall|i: int|
                    0 <= i < models@.len() && i < live && spec_instance_accepted(
                        positions@,
                        indices@,
                        (#[trigger] models@[i])@,
                    ) ==> final(self).objs().dom().contains(spec_pack_id(key, i as u64)) && !old(
                        self,
                    ).tags().dom().contains(
                        final(self).objs()[spec_pack_id(key, i as u64)].0,
                    ) && final(self).tags().dom().contains(
                        final(self).objs()[spec_pack_id(key, i as u64)].0,
                    ) && final(self).tags()[final(self).objs()[spec_pack_id(key, i as u64)].0]
                        == 0
                &&& forall|i: int|
                    0 <= i < models@.len() && !(i < live && spec_instance_accepted(
                        positions@,
                        indices@,
                        models@[i]@,
                    )) ==> !final(self).objs().dom().contains(
                        #[trigger] spec_pack_id(key, i as u64),
                    )
                &&& count == spec_built_count(
                    positions@,
                    indices@,
                    models@,
                    live,
                    models@.len() as int,
                )
            },
    {
        let ghost orig = *self;
        let ghost live0 = orig.mesh_live(key).len();
        if !indices_in_bounds(indices, positions.len()) {
            return 0;
        }
        proof {
            assert forall|ii: int| 0 <= ii < models@.len() implies !self.objs().dom().contains(
                #[trigger] spec_pack_id(key, ii as u64),
            ) by {
                crate::ids::lemma_pack_id_invertible(key, ii as u64);
            }
        }
        let mut count: usize = 0;
        let mut i: usize = 0;
        while i < models.len()
            invariant
                self.wf(),
                i <= models@.len(),
                count <= i,
                self.color_meshes == orig.color_meshes,
                self.texture_meshes == orig.texture_meshes,
                live0 == orig.mesh_live(key).len(),
                forall|j: int| 0 <= j < indices@.len() ==> (indices@[j] as int) < positions@.len(),
                forall|id: u128| orig.objs().dom().contains(id) ==> spec_id_key(id) != key,
                count == spec_built_count(positions@, indices@, models@, live0, i as int),
                forall|id: u128| #[trigger]
                    self.objs().dom().contains(id) ==> self.tags().dom().contains(
                        self.objs()[id].0,
                    ),
                forall|id: u128| #[trigger]
                    orig.objs().dom().contains(id) ==> self.objs().dom().contains(id)
                        && self.objs()[id] == orig.objs()[id],
                forall|id: u128| #[trigger]
                    self.objs().dom().contains(id) && spec_id_key(id) != key
                        ==> orig.objs().dom().contains(id),
                forall|h: RawHandle| #[trigger]
                    orig.tags().dom().contains(h) ==> self.tags().dom().contains(h)
                        && self.tags()[h] == orig.tags()[h],
                forall|h: RawHandle| #[trigger]
                    self.tags().dom().contains(h) ==> orig.tags().dom().contains(h)
                        || self.tags()[h] == 0,
                forall|ii: int|
                    0 <= ii < i && ii < live0 && spec_instance_accepted(
                        positions@,
                        indices@,
                        (#[trigger] models@[ii])@,
                    ) ==> self.objs().dom().contains(spec_pack_id(key, ii as u64)) && !orig.tags().dom().contains(
                        self.objs()[spec_pack_id(key, ii as u64)].0,
                    ) && self.tags().dom().contains(
                        self.objs()[spec_pack_id(key, ii as u64)].0,
                    ) && self.tags()[self.objs()[spec_pack_id(key, ii as u64)].0] == 0,
                forall|ii: int|
                    0 <= ii < models@.len() && !(ii < i && ii < live0 && spec_instance_accepted(
                        positions@,
                        indices@,
                        models@[ii]@,
                    )) ==> !self.objs().dom().contains(#[trigger] spec_pack_id(key, ii as u64)),
            decreases models@.len() - i,
        {
            let ghost mid = *self;
            let n_live = self.mesh_instance_count(key);
            proof {
                assert(n_live == live0);
                crate::ids::lemma_pack_id_invertible(key, i as u64);
            }
            if i < n_live {
                let m = models[i];
                let (scale, rotation, translation) = mat4_to_srt(&m);
                let scaled = scale_positions(positions, &scale);
                let det = mat4_determinant(&m);
                let flip = f32_bits_neg(det);
                let final_indices = if flip {
                    flip_winding(indices)
                } else {
                    copy_u16(indices)
                };
                let tris = triangles_from_indices(&final_indices);
                proof {
                    if flip {
                        lemma_flip_winding_in_bounds(indices@, positions@.len() as int);
                    }
                    assert(final_indices@ == spec_instance_tris_source(indices@, m@));
                    assert(tris@ == spec_instance_tris(indices@, m@));
                    assert(crate::mathops::spec_rows3(scaled@) =~= spec_instance_points(
                        positions@,
                        m@,
                    ));
                    assert((final_indices@.len() as int / 3) * 3 <= final_indices@.len() as int);
                    assert forall|t: int, c: int|
                        0 <= t < tris@.len() && 0 <= c < 3 implies ((#[trigger] tris@[t]@[c]) as int)
                        < scaled@.len() by {
                        assert(tris@[t]@[c] as int == final_indices@[3 * t + c] as int);
                        assert((final_indices@[3 * t + c] as int) < positions@.len());
                    }
                }
                match try_trimesh_collider(&scaled, &tris) {
                    Some(collider) => {
                        proof {
                            assert(spec_instance_accepted(positions@, indices@, m@));
                        }
                        let angvel = quat_to_scaled_axis(&rotation);
                        let bh = insert_fixed_body(
                            &mut self.physics.bodies,
                            &translation,
                            &angvel,
                        );
                        let ch = attach_collider(
                            &mut self.physics.colliders,
                            &mut self.physics.bodies,
                            collider,
                            bh,
                        );
                        let id = pack_id(key, i as u64);
                        proof {
                            // the fresh body differs from every anchored
                            // pair, so the bijection insert evicts nothing
                            assert forall|idx: u128| #[trigger]
                                mid.objs().dom().contains(idx) implies mid.objs()[idx] != (
                            bh,
                            ch,
                            ) by {
                                assert(mid.tags().dom().contains(mid.objs()[idx].0));
                            }
                            crate::scene::lemma_bimap_insert_no_evict(mid.objs(), id, (bh, ch));
                        }
                        crate::extcol::bimap_insert(&mut self.objects, id, (bh, ch));
                        count += 1;
                        proof {
                            assert(self.objs() =~= mid.objs().insert(id, (bh, ch)));
                            assert forall|idx: u128| #[trigger]
                                self.objs().dom().contains(idx) implies self.has_mesh(
                                spec_id_key(idx),
                            ) && (crate::ids::spec_id_slot(idx) as nat) < self.mesh_live(
                                spec_id_key(idx),
                            ).len() by {
                                if idx != id {
                                    assert(mid.objs().dom().contains(idx));
                                }
                            }
                            assert(crate::scene::map_injective(self.objs())) by {
                                crate::scene::lemma_bimap_inserted_injective(
                                    mid.objs(),
                                    id,
                                    (bh, ch),
                                );
                            }
                            assert forall|h: RawHandle| #[trigger]
                                self.tags().dom().contains(h) implies orig.tags().dom().contains(
                                h,
                            ) || self.tags()[h] == 0 by {
                                if h != bh {
                                    assert(mid.tags().dom().contains(h));
                                }
                            }
                            assert forall|ii: int|
                                0 <= ii < models@.len() && !(ii < i + 1 && ii < live0
                                    && spec_instance_accepted(
                                    positions@,
                                    indices@,
                                    models@[ii]@,
                                )) implies !self.objs().dom().contains(
                                #[trigger] spec_pack_id(key, ii as u64),
                            ) by {
                                crate::ids::lemma_pack_id_invertible(key, ii as u64);
                                crate::ids::lemma_pack_id_invertible(key, i as u64);
                                assert(!mid.objs().dom().contains(spec_pack_id(key, ii as u64)));
                            }
                        }
                    },
                    None => {
                        proof {
                            assert(!spec_instance_accepted(positions@, indices@, m@));
                        }
                    },
                }
            }
            proof {
                assert forall|ii: int|
                    0 <= ii < models@.len() && !(ii < i + 1 && ii < live0
                        && spec_instance_accepted(
                        positions@,
                        indices@,
                        models@[ii]@,
                    )) implies !self.objs().dom().contains(
                    #[trigger] spec_pack_id(key, ii as u64),
                ) by {
                    crate::ids::lemma_pack_id_invertible(key, ii as u64);
                    crate::ids::lemma_pack_id_invertible(key, i as u64);
                }
            }
            i += 1;
        }
        count
    }

    /// Whether no physics object is mapped under the given mesh key. The
    /// scene invariant confines a key's objects to its live slots, so
    /// scanning those decides the question.
    pub fn key_unmapped(&self, key: u64) -> (r: bool)
        requires
            self.wf(),
        ensures
            r ==> forall|id: u128| self.objs().dom().contains(id) ==> spec_id_key(id) != key,
    {
        let n = self.mesh_instance_count(key);
        let mut slot: usize = 0;
        while slot < n
            invariant
                self.wf(),
                slot <= n,
                n == self.mesh_live(key).len(),
                forall|ss: int|
                    0 <= ss < slot ==> !self.objs().dom().contains(
                        #[trigger] spec_pack_id(key, ss as u64),
                    ),
            decreases n - slot,
        {
            if self.object_of(pack_id(key, slot as u64)).is_some() {
                return false;
            }
            slot += 1;
        }
        proof {
            assert forall|id: u128|
                self.objs().dom().contains(id) implies spec_id_key(id) != key by {
                if spec_id_key(id) == key {
                    crate::scene::lemma_id_roundtrip(id);
                    assert((crate::ids::spec_id_slot(id) as nat) < self.mesh_live(key).len());
                    let ss = crate::ids::spec_id_slot(id) as int;
                    assert((ss as u64) == crate::ids::spec_id_slot(id));
                    assert(!self.objs().dom().contains(spec_pack_id(key, ss as u64)));
                }
            }
        }
        true
    }

    /// How many instances are live under `key`, zero for an unknown key.
    pub fn mesh_instance_count(&self, key: u64) -> (n: usize)
        requires
            self.wf(),
        ensures
            n == self.mesh_live(key).len(),
    {
        match self.color_meshes.instance_count(key) {
            Some(n) => n,
            None => {
                match self.texture_meshes.instance_count(key) {
                    Some(n) => n,
                    None => 0,
                }
            },
        }
    }
}

/// A deep copy of a prepared mesh (all plain values), for handing the
/// upload payload out while the classification list stays intact.
fn copy_prepared(p: &PreparedMesh) -> PreparedMesh {
    let payload = match &p.payload {
        MeshPayload::Colored { vertices } => {
            let mut vs: Vec<ColoredVertex> = Vec::new();
            let mut i: usize = 0;
            while i < vertices.len()
                decreases vertices@.len() - i,
            {
                vs.push(vertices[i]);
                i += 1;
            }
            MeshPayload::Colored { vertices: vs }
        },
        MeshPayload::Textured { vertices, image } => {
            let mut vs: Vec<TexturedVertex> = Vec::new();
            let mut i: usize = 0;
            while i < vertices.len()
                decreases vertices@.len() - i,
            {
                vs.push(vertices[i]);
                i += 1;
            }
            MeshPayload::Textured { vertices: vs, image: copy_bytes(image) }
        },
    };
    PreparedMesh { payload, indices: copy_u16(&p.indices), positions: copy_arrays3(&p.positions) }
}

/// A copy of a byte vector.
fn copy_bytes(v: &Vec<u8>) -> (r: Vec<u8>)
    ensures
        r@ == v@,
{
    let mut r: Vec<u8> = Vec::new();
    let mut i: usize = 0;
    while i < v.len()
        invariant
            i <= v@.len(),
            r@ == v@.take(i as int),
        decreases v@.len() - i,
    {
        r.push(v[i]);
        proof {
            assert(r@ =~= v@.take(i + 1));
        }
        i += 1;
    }
    proof {
        assert(v@.take(v@.len() as int) =~= v@);
    }
    r
}

/// The model matrices of a record list.
fn models_of_records(recs: &Vec<InstanceRaw>) -> (r: Vec<[u32; 16]>)
    ensures
        r@.len() == recs@.len(),
        forall|i: int| 0 <= i < r@.len() ==> r@[i] == (#[trigger] recs@[i]).model,
{
    let mut r: Vec<[u32; 16]> = Vec::new();
    let mut i: usize = 0;
    while i < recs.len()
        invariant
            i <= recs@.len(),
            r@.len() == i,
            forall|j: int| 0 <= j < i ==> r@[j] == (#[trigger] recs@[j]).model,
        decreases recs@.len() - i,
    {
        r.push(recs[i].model);
        i += 1;
    }
    r
}


/// The classification pass: every geometry-naming node's preparable
/// primitives are prepared, the last one of a name winning. The result
/// names each geometry mesh exactly once: names are pairwise distinct,
/// every name is a geometry-naming node's, and every geometry node with a
/// preparable primitive is named.
#[verifier::rlimit(30)]
fn classify_nodes(nodes: &Vec<NodeData>, blob: &Vec<u8>) -> (prepared: Vec<
    (Vec<u8>, PreparedMesh),
>)
    ensures
        spec_names_distinct(prepared@),
        spec_names_sound(prepared@, nodes@),
        spec_names_complete(prepared@, nodes@, nodes@.len() as int),
{
    // the last processed primitive of a name wins
    let mut prepared: Vec<(Vec<u8>, PreparedMesh)> = Vec::new();
    let mut i: usize = 0;
    while i < nodes.len()
        invariant
            i <= nodes@.len(),
            spec_names_distinct(prepared@),
            spec_names_sound(prepared@, nodes@),
            spec_names_complete(prepared@, nodes@, i as int),
        decreases nodes@.len() - i,
    {
        let node = &nodes[i];
        if split_node_name(node.name.as_slice()).is_none() {
            let mut pi: usize = 0;
            while pi < node.primitives.len()
                invariant
                    pi <= node.primitives@.len(),
                    i < nodes@.len(),
                    node == &nodes[i as int],
                    !spec_is_instance_ref(nodes@[i as int].name@),
                    spec_names_distinct(prepared@),
                    spec_names_sound(prepared@, nodes@),
                    spec_names_complete(prepared@, nodes@, i as int),
                    (exists|p: int|
                        0 <= p < pi && spec_primitive_ok(
                            #[trigger] nodes@[i as int].primitives@[p],
                        )) ==> exists|ee: int|
                        0 <= ee < prepared@.len() && (#[trigger] prepared@[ee]).0@
                            == nodes@[i as int].name@,
                decreases node.primitives@.len() - pi,
            {
                match process_primitive(&node.primitives[pi], blob) {
                    Some(pm) => {
                        let mut found: Option<usize> = None;
                        let mut e: usize = 0;
                        while e < prepared.len()
                            invariant
                                e <= prepared@.len(),
                                i < nodes@.len(),
                                node == &nodes[i as int],
                                found is Some ==> found.unwrap() < prepared@.len()
                                    && prepared@[found.unwrap() as int].0@
                                    == nodes@[i as int].name@,
                                found is None ==> forall|jj: int|
                                    0 <= jj < e ==> (#[trigger] prepared@[jj]).0@
                                        != nodes@[i as int].name@,
                            decreases prepared@.len() - e,
                        {
                            if found.is_none() && bytes_eq(
                                prepared[e].0.as_slice(),
                                node.name.as_slice(),
                            ) {
                                found = Some(e);
                            }
                            e += 1;
                        }
                        let ghost before = prepared@;
                        match found {
                            Some(fe) => {
                                let entry = vstd::std_specs::vec::vec_index_mut(
                                    &mut prepared,
                                    fe,
                                );
                                entry.1 = pm;
                                proof {
                                    assert(prepared@.len() == before.len());
                                    assert(forall|ee: int|
                                        0 <= ee < prepared@.len() ==> (
                                        #[trigger] prepared@[ee]).0@ == before[ee].0@);
                                    assert(prepared@[fe as int].0@
                                        == nodes@[i as int].name@);
                                    lemma_names_transport(before, prepared@, nodes@, i as int);
                                }
                            },
                            None => {
                                prepared.push((copy_bytes(&node.name), pm));
                                proof {
                                    assert(prepared@[prepared@.len() - 1].0@
                                        == nodes@[i as int].name@);
                                    assert(forall|ee: int|
                                        0 <= ee < before.len() ==> (
                                        #[trigger] prepared@[ee]).0@ == before[ee].0@);
                                    lemma_names_transport(before, prepared@, nodes@, i as int);
                                }
                            },
                        }
                    },
                    None => {},
                }
                pi += 1;
            }
            proof {
                if spec_geometry_node(nodes@[i as int]) {
                    assert(exists|ee: int|
                        0 <= ee < prepared@.len() && (#[trigger] prepared@[ee]).0@
                            == nodes@[i as int].name@);
                }
            }
        }
        i += 1;
    }

    prepared
}

impl Scene {
    /// Ingest a converted document: classify every node (instance
    /// references aggregate per-base-name instance lists; other names
    /// define geometry), prepare and register each geometry mesh under the
    /// hash of its name with its aggregated instances (a mesh nobody
    /// references gets one identity-transform instance), then populate the
    /// physics world with one fixed body per collider-mesh instance.
    /// Ingestion is load-time work: it runs before any physics object is
    /// mapped. A name whose key already sits in the other variant's
    /// registry (only possible through a hash collision of distinct names)
    /// is skipped rather than conflated. Returns the prepared upload assets
    /// and the GPU operation batches, keyed by mesh.
    pub fn add_assets(&mut self, nodes: &Vec<NodeData>, blob: &Vec<u8>) -> (r: (
        Vec<MeshAsset>,
        Vec<(u64, Vec<GpuOp>)>,
    ))
        requires
            old(self).wf(),
            old(self).objs().dom() == Set::<u128>::empty(),
            forall|i: int|
                0 <= i < nodes@.len() && !spec_is_instance_ref((#[trigger] nodes@[i]).name@)
                    ==> !old(self).has_mesh(mesh_key_of(nodes@[i].name@)),
            forall|i: int, j: int|
                0 <= i < nodes@.len() && 0 <= j < nodes@.len() && !spec_is_instance_ref(
                    (#[trigger] nodes@[i]).name@,
                ) && !spec_is_instance_ref((#[trigger] nodes@[j]).name@) && nodes@[i].name@
                    != nodes@[j].name@ ==> mesh_key_of(nodes@[i].name@) != mesh_key_of(
                    nodes@[j].name@,
                ),
        ensures
            final(self).wf(),
            forall|j: int|
                0 <= j < r.0@.len() ==> final(self).has_mesh((#[trigger] r.0@[j]).key),
            forall|i: int|
                0 <= i < nodes@.len() && spec_geometry_node(#[trigger] nodes@[i])
                    ==> spec_mesh_registered(*final(self), nodes@, nodes@[i].name@),
    {
        let ghost orig = *self;
        let groups = collect_instances(nodes);

        let mut prepared = classify_nodes(nodes, blob);

        // registration pass
        let mut assets: Vec<MeshAsset> = Vec::new();
        let mut all_ops: Vec<(u64, Vec<GpuOp>)> = Vec::new();
        let mut e: usize = 0;
        while e < prepared.len()
            invariant
                e <= prepared@.len(),
                self.wf(),
                self.objs() == orig.objs(),
                self.tags() == orig.tags(),
                orig.objs().dom() == Set::<u128>::empty(),
                spec_names_distinct(prepared@),
                spec_names_sound(prepared@, nodes@),
                forall|i2: int|
                    0 <= i2 < nodes@.len() && !spec_is_instance_ref((#[trigger] nodes@[i2]).name@)
                        ==> !orig.has_mesh(mesh_key_of(nodes@[i2].name@)),
                forall|i2: int, j2: int|
                    0 <= i2 < nodes@.len() && 0 <= j2 < nodes@.len() && !spec_is_instance_ref(
                        (#[trigger] nodes@[i2]).name@,
                    ) && !spec_is_instance_ref((#[trigger] nodes@[j2]).name@) && nodes@[i2].name@
                        != nodes@[j2].name@ ==> mesh_key_of(nodes@[i2].name@) != mesh_key_of(
                        nodes@[j2].name@,
                    ),
                forall|i2: int|
                    0 <= i2 < nodes@.len() && spec_is_instance_ref((#[trigger] nodes@[i2]).name@)
                        ==> exists|j2: int|
                        0 <= j2 < groups@.len() && (#[trigger] groups@[j2].0@) == spec_base_name(
                            nodes@[i2].name@,
                        ),
                forall|j2: int|
                    0 <= j2 < groups@.len() ==> {
                        let models = spec_ref_models(nodes@, (#[trigger] groups@[j2]).0@);
                        &&& groups@[j2].1@.len() == models.len()
                        &&& forall|m: int|
                            0 <= m < models.len() ==> (#[trigger] groups@[j2].1@[m]).model
                                == models[m] && groups@[j2].1@[m].normal@ == spec_normal_matrix(
                                models[m]@,
                            )
                    },
                forall|k: u64| #[trigger]
                    self.has_mesh(k) ==> orig.has_mesh(k) || exists|ee: int|
                        0 <= ee < e && mesh_key_of((#[trigger] prepared@[ee]).0@) == k,
                forall|ee: int|
                    0 <= ee < e ==> spec_mesh_registered(
                        *self,
                        nodes@,
                        (#[trigger] prepared@[ee]).0@,
                    ),
                forall|j: int|
                    0 <= j < assets@.len() ==> self.has_mesh((#[trigger] assets@[j]).key),
            decreases prepared@.len() - e,
        {
            let ghost pre_reg = *self;
            let name = copy_bytes(&prepared[e].0);
            let key = hash_bytes_to_u64(name.as_slice());
            proof {
                assert(name@ == prepared@[e as int].0@);
                assert(spec_geometry_named(nodes@, name@));
                // the key is fresh: not pre-registered, and no earlier
                // entry's (the names differ, and distinct geometry names
                // never share a key)
                assert(!self.has_mesh(key)) by {
                    if self.has_mesh(key) {
                        let w = lemma_pick_geometry_named(nodes@, name@);
                        assert(!orig.has_mesh(mesh_key_of(nodes@[w].name@)));
                        if !orig.has_mesh(key) {
                            let ee = choose|ee: int|
                                0 <= ee < e && mesh_key_of((#[trigger] prepared@[ee]).0@) == key;
                            let w2 = lemma_pick_geometry_named(nodes@, prepared@[ee].0@);
                            assert(prepared@[ee].0@ != prepared@[e as int].0@);
                            assert(nodes@[w2].name@ != nodes@[w].name@);
                            assert(mesh_key_of(nodes@[w2].name@) != mesh_key_of(nodes@[w].name@));
                        }
                    }
                }
            }
            // the aggregated instances of this name, or one identity
            // instance for a mesh nobody references
            let mut found_g: Option<usize> = None;
            let mut g: usize = 0;
            while g < groups.len()
                invariant
                    g <= groups@.len(),
                    name@ == prepared@[e as int].0@,
                    e < prepared@.len(),
                    found_g is Some ==> found_g.unwrap() < groups@.len() && groups@[
                        found_g.unwrap() as int
                    ].0@ == name@,
                    found_g is None ==> forall|gg: int|
                        0 <= gg < g ==> (#[trigger] groups@[gg]).0@ != name@,
                decreases groups@.len() - g,
            {
                if found_g.is_none() && bytes_eq(groups[g].0.as_slice(), name.as_slice()) {
                    found_g = Some(g);
                }
                g += 1;
            }
            let ghost models = spec_ref_models(nodes@, name@);
            let instances = match found_g {
                Some(gi) => {
                    let recs = crate::ibuf::copy_records(&groups[gi].1);
                    if recs.len() > 0 {
                        recs
                    } else {
                        let mut v: Vec<InstanceRaw> = Vec::new();
                        v.push(identity_instance());
                        v
                    }
                },
                None => {
                    proof {
                        // no group, hence no node references this name
                        assert forall|k2: int|
                            0 <= k2 < nodes@.len() implies !spec_node_is_ref_of(
                            #[trigger] nodes@[k2],
                            name@,
                        ) by {
                            if spec_node_is_ref_of(nodes@[k2], name@) {
                                assert(spec_is_instance_ref(nodes@[k2].name@));
                                let j2 = choose|j2: int|
                                    0 <= j2 < groups@.len() && (#[trigger] groups@[j2].0@)
                                        == spec_base_name(nodes@[k2].name@);
                                assert(groups@[j2].0@ == name@);
                            }
                        }
                        lemma_ref_models_empty(nodes@, name@);
                    }
                    let mut v: Vec<InstanceRaw> = Vec::new();
                    v.push(identity_instance());
                    v
                },
            };
            proof {
                if models.len() > 0 {
                    assert(instances@.len() == models.len());
                    assert(forall|m: int|
                        0 <= m < models.len() ==> (#[trigger] instances@[m]).model == models[m]
                            && instances@[m].normal@ == spec_normal_matrix(models[m]@));
                } else {
                    assert(instances@.len() == 1);
                }
            }
            let instance_models = models_of_records(&instances);
            #[verifier::truncate]
            let index_count = prepared[e].1.indices.len() as u32;
            let asset_payload = copy_prepared(&prepared[e].1);
            let is_textured = match &prepared[e].1.payload {
                MeshPayload::Textured { .. } => true,
                MeshPayload::Colored { .. } => false,
            };
            let ops = if is_textured {
                self.add_texture_mesh(key, index_count, instances)
            } else {
                self.add_color_mesh(key, index_count, instances)
            };
            all_ops.push((key, ops));
            assets.push(MeshAsset { key, name, prepared: asset_payload, instance_models });
            proof {
                assert(self.mesh_live(key) == instances@);
                assert(spec_mesh_registered(*self, nodes@, prepared@[e as int].0@));
                assert forall|ee: int| 0 <= ee < e + 1 implies spec_mesh_registered(
                    *self,
                    nodes@,
                    (#[trigger] prepared@[ee]).0@,
                ) by {
                    if ee < e {
                        let k2 = mesh_key_of(prepared@[ee].0@);
                        assert(k2 != key) by {
                            let w = lemma_pick_geometry_named(nodes@, prepared@[e as int].0@);
                            let w2 = lemma_pick_geometry_named(nodes@, prepared@[ee].0@);
                            assert(prepared@[ee].0@ != prepared@[e as int].0@);
                            assert(nodes@[w2].name@ != nodes@[w].name@);
                        }
                        assert(self.mesh_live(k2) == pre_reg.mesh_live(k2));
                        assert(self.has_mesh(k2) == pre_reg.has_mesh(k2));
                    }
                }
                assert forall|k: u64| #[trigger]
                    self.has_mesh(k) implies pre_reg.has_mesh(k) || k == key by {
                    if k != key {
                        assert(self.mesh_live(k) == pre_reg.mesh_live(k));
                        assert(self.has_mesh(k) == pre_reg.has_mesh(k));
                    }
                }
                assert forall|j: int|
                    0 <= j < assets@.len() implies self.has_mesh((#[trigger] assets@[j]).key) by {
                    if assets@[j].key != key {
                        assert(self.mesh_live(assets@[j].key) == pre_reg.mesh_live(
                            assets@[j].key,
                        ));
                        assert(self.has_mesh(assets@[j].key) == pre_reg.has_mesh(
                            assets@[j].key,
                        ));
                    }
                }
            }
            e += 1;
        }

        // static physics population for every collider mesh
        proof {
            assert(self.objs().dom() =~= Set::<u128>::empty());
        }
        let mut a: usize = 0;
        while a < assets.len()
            invariant
                a <= assets@.len(),
                self.wf(),
                forall|j: int|
                    0 <= j < assets@.len() ==> self.has_mesh((#[trigger] assets@[j]).key),
                forall|id: u128| #[trigger]
                    self.objs().dom().contains(id) ==> self.tags().dom().contains(
                        self.objs()[id].0,
                    ),
                spec_names_complete(prepared@, nodes@, nodes@.len() as int),
                forall|ee: int|
                    0 <= ee < prepared@.len() ==> spec_mesh_registered(
                        *self,
                        nodes@,
                        (#[trigger] prepared@[ee]).0@,
                    ),
            decreases assets@.len() - a,
        {
            let ghost pre_c = *self;
            let asset_key = assets[a].key;
            // a key already carrying objects (possible only through a hash
            // collision of this document's names with the scene's existing
            // meshes) is not populated twice
            if self.key_unmapped(asset_key) {
                let asset = &assets[a];
                self.add_collider_instances(
                    asset.key,
                    &asset.prepared.positions,
                    &asset.prepared.indices,
                    &asset.instance_models,
                );
            }
            proof {
                assert forall|j: int|
                    0 <= j < assets@.len() implies self.has_mesh((#[trigger] assets@[j]).key) by {
                    assert(self.color_meshes == pre_c.color_meshes);
                    assert(self.texture_meshes == pre_c.texture_meshes);
                }
                assert forall|ee: int|
                    0 <= ee < prepared@.len() implies spec_mesh_registered(
                    *self,
                    nodes@,
                    (#[trigger] prepared@[ee]).0@,
                ) by {
                    assert(self.color_meshes == pre_c.color_meshes);
                    assert(self.texture_meshes == pre_c.texture_meshes);
                    let k2 = mesh_key_of(prepared@[ee].0@);
                    assert(self.mesh_live(k2) == pre_c.mesh_live(k2));
                    assert(self.has_mesh(k2) == pre_c.has_mesh(k2));
                }
            }
            a += 1;
        }
        proof {
            assert forall|i2: int|
                0 <= i2 < nodes@.len() && spec_geometry_node(#[trigger] nodes@[i2])
                    implies spec_mesh_registered(*self, nodes@, nodes@[i2].name@) by {
                let ee = lemma_pick_entry(prepared@, nodes@[i2].name@);
                assert(spec_mesh_registered(*self, nodes@, prepared@[ee].0@));
            }
        }
        (assets, all_ops)
    }
}

} // verus!
