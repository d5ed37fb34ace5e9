//! The floating-point math layer.
//!
//! The library stores every scalar as the raw bit pattern of an IEEE-754
//! single-precision value and never computes on floats itself. What only
//! float arithmetic can produce (sums, cross products, inverses,
//! decompositions) is delegated to `glam` behind wrappers; each wrapper's
//! result is a pure function of its arguments and carries an abstract name
//! the contracts downstream speak of. Pure element shuffles (transposes,
//! block extraction, translation columns) are written here directly, fully
//! verified.

use vstd::prelude::*;

verus! {

/// The bit pattern of 1.0f32.
pub const F32_ONE_BITS: u32 = 0x3F80_0000;

/// Whether a bit pattern denotes a single-precision value strictly below
/// zero: the sign bit is set, the value is not negative zero, and the
/// magnitude is not a NaN payload (IEEE-754: NaN compares false, negative
/// zero equals zero).
pub open spec fn spec_f32_bits_neg(x: u32) -> bool {
    &&& x >= 0x8000_0000
    &&& (x & 0x7FFF_FFFF) != 0
    &&& (x & 0x7FFF_FFFF) <= 0x7F80_0000
}

/// Executable test for `spec_f32_bits_neg`.
pub fn f32_bits_neg(x: u32) -> (r: bool)
    ensures
        r == spec_f32_bits_neg(x),
{
    x >= 0x8000_0000 && (x & 0x7FFF_FFFF) != 0 && (x & 0x7FFF_FFFF) <= 0x7F80_0000
}

// What the glam calls return, named: each is a pure function of its
// arguments alone (same bits in, same bits out, on every machine).
pub uninterp spec fn v3_add_of(a: Seq<u32>, b: Seq<u32>) -> Seq<u32>;

pub uninterp spec fn v3_sub_of(a: Seq<u32>, b: Seq<u32>) -> Seq<u32>;

pub uninterp spec fn v3_mul_of(a: Seq<u32>, b: Seq<u32>) -> Seq<u32>;

pub uninterp spec fn v3_cross_of(a: Seq<u32>, b: Seq<u32>) -> Seq<u32>;

pub uninterp spec fn v3_normalize_of(a: Seq<u32>) -> Seq<u32>;

pub uninterp spec fn v3_dot_of(a: Seq<u32>, b: Seq<u32>) -> u32;

pub uninterp spec fn mat3_inverse_of(m: Seq<u32>) -> Seq<u32>;

pub uninterp spec fn mat4_det_of(m: Seq<u32>) -> u32;

pub uninterp spec fn mat4_srt_of(m: Seq<u32>) -> (Seq<u32>, Seq<u32>, Seq<u32>);

pub uninterp spec fn quat_scaled_axis_of(q: Seq<u32>) -> Seq<u32>;

pub uninterp spec fn mat4_rt_of(q: Seq<u32>, t: Seq<u32>) -> Seq<u32>;

/// Relies on glam::Vec3 addition (componentwise).
#[verifier::external_body]
pub fn v3_add(a: &[u32; 3], b: &[u32; 3]) -> (r: [u32; 3])
    ensures
        r@ == v3_add_of(a@, b@),
{
    let va: glam::Vec3 = bytemuck::cast(*a);
    let vb: glam::Vec3 = bytemuck::cast(*b);
    bytemuck::cast::<glam::Vec3, [u32; 3]>(va + vb)
}

/// Relies on glam::Vec3 subtraction (componentwise).
#[verifier::external_body]
pub fn v3_sub(a: &[u32; 3], b: &[u32; 3]) -> (r: [u32; 3])
    ensures
        r@ == v3_sub_of(a@, b@),
{
    let va: glam::Vec3 = bytemuck::cast(*a);
    let vb: glam::Vec3 = bytemuck::cast(*b);
    bytemuck::cast::<glam::Vec3, [u32; 3]>(va - vb)
}

/// Relies on glam::Vec3 multiplication (componentwise; used to apply a
/// decomposed scale to local vertex positions).
#[verifier::external_body]
pub fn v3_mul(a: &[u32; 3], b: &[u32; 3]) -> (r: [u32; 3])
    ensures
        r@ == v3_mul_of(a@, b@),
{
    let va: glam::Vec3 = bytemuck::cast(*a);
    let vb: glam::Vec3 = bytemuck::cast(*b);
    bytemuck::cast::<glam::Vec3, [u32; 3]>(va * vb)
}

/// Relies on glam::Vec3::cross.
#[verifier::external_body]
pub fn v3_cross(a: &[u32; 3], b: &[u32; 3]) -> (r: [u32; 3])
    ensures
        r@ == v3_cross_of(a@, b@),
{
    let va: glam::Vec3 = bytemuck::cast(*a);
    let vb: glam::Vec3 = bytemuck::cast(*b);
    bytemuck::cast::<glam::Vec3, [u32; 3]>(va.cross(vb))
}

/// Relies on glam::Vec3::normalize (a zero or non-finite input yields a
/// non-finite result, never a panic: glam's debug assertions are off).
#[verifier::external_body]
pub fn v3_normalize(a: &[u32; 3]) -> (r: [u32; 3])
    ensures
        r@ == v3_normalize_of(a@),
{
    let va: glam::Vec3 = bytemuck::cast(*a);
    bytemuck::cast::<glam::Vec3, [u32; 3]>(va.normalize())
}

/// Relies on glam::Vec3::dot.
#[verifier::external_body]
pub fn v3_dot(a: &[u32; 3], b: &[u32; 3]) -> (r: u32)
    ensures
        r == v3_dot_of(a@, b@),
{
    let va: glam::Vec3 = bytemuck::cast(*a);
    let vb: glam::Vec3 = bytemuck::cast(*b);
    va.dot(vb).to_bits()
}

/// Relies on glam::Mat3::inverse (a singular input yields non-finite
/// entries, never a panic: glam's debug assertions are off).
#[verifier::external_body]
pub fn mat3_inverse(m: &[u32; 9]) -> (r: [u32; 9])
    ensures
        r@ == mat3_inverse_of(m@),
{
    let ma: glam::Mat3 = bytemuck::cast(*m);
    bytemuck::cast::<glam::Mat3, [u32; 9]>(ma.inverse())
}

/// Relies on glam::Mat4::determinant.
#[verifier::external_body]
pub fn mat4_determinant(m: &[u32; 16]) -> (r: u32)
    ensures
        r == mat4_det_of(m@),
{
    let ma: glam::Mat4 = bytemuck::cast(*m);
    ma.determinant().to_bits()
}

/// Relies on glam::Mat4::to_scale_rotation_translation: the decomposition
/// of an affine transform into scale, rotation quaternion and translation.
#[verifier::external_body]
pub fn mat4_to_srt(m: &[u32; 16]) -> (r: ([u32; 3], [u32; 4], [u32; 3]))
    ensures
        (r.0@, r.1@, r.2@) == mat4_srt_of(m@),
{
    let ma: glam::Mat4 = bytemuck::cast(*m);
    let (s, q, t) = ma.to_scale_rotation_translation();
    (
        bytemuck::cast::<glam::Vec3, [u32; 3]>(s),
        bytemuck::cast::<glam::Quat, [u32; 4]>(q),
        bytemuck::cast::<glam::Vec3, [u32; 3]>(t),
    )
}

/// Relies on glam::Quat::to_scaled_axis: the axis-angle vector of a
/// rotation quaternion.
#[verifier::external_body]
pub fn quat_to_scaled_axis(q: &[u32; 4]) -> (r: [u32; 3])
    ensures
        r@ == quat_scaled_axis_of(q@),
{
    let qa: glam::Quat = bytemuck::cast(*q);
    bytemuck::cast::<glam::Vec3, [u32; 3]>(qa.to_scaled_axis())
}

/// Relies on glam::Mat4::from_rotation_translation: the homogeneous model
/// matrix of a rigid pose.
#[verifier::external_body]
pub fn mat4_from_rotation_translation(q: &[u32; 4], t: &[u32; 3]) -> (r: [u32; 16])
    ensures
        r@ == mat4_rt_of(q@, t@),
{
    let qa: glam::Quat = bytemuck::cast(*q);
    let ta: glam::Vec3 = bytemuck::cast(*t);
    bytemuck::cast::<glam::Mat4, [u32; 16]>(glam::Mat4::from_rotation_translation(qa, ta))
}

/// A sequence of bit-pattern triples, each row opened into its view: the
/// shape collider geometry takes in contracts.
pub open spec fn spec_rows3(v: Seq<[u32; 3]>) -> Seq<Seq<u32>> {
    Seq::new(v.len(), |i: int| v[i]@)
}

/// The upper-left 3x3 block of a column-major 4x4 matrix, column-major.
pub open spec fn spec_mat3_of_mat4(m: Seq<u32>) -> Seq<u32> {
    Seq::new(9, |i: int| m[4 * (i / 3) + (i % 3)])
}

/// Executable extraction of the upper-left 3x3 block.
pub fn mat3_of_mat4(m: &[u32; 16]) -> (r: [u32; 9])
    ensures
        r@ == spec_mat3_of_mat4(m@),
{
    let r = [m[0], m[1], m[2], m[4], m[5], m[6], m[8], m[9], m[10]];
    proof {
        assert forall|i: int| 0 <= i < 9 implies r@[i] == spec_mat3_of_mat4(m@)[i] by {
            assert(spec_mat3_of_mat4(m@)[i] == m@[4 * (i / 3) + (i % 3)]);
        }
        assert(r@ =~= spec_mat3_of_mat4(m@));
    }
    r
}

/// The transpose of a column-major 3x3 matrix.
pub open spec fn spec_mat3_transpose(m: Seq<u32>) -> Seq<u32> {
    Seq::new(9, |i: int| m[3 * (i % 3) + (i / 3)])
}

/// Executable 3x3 transpose (pure element movement).
pub fn mat3_transpose(m: &[u32; 9]) -> (r: [u32; 9])
    ensures
        r@ == spec_mat3_transpose(m@),
{
    let r = [m[0], m[3], m[6], m[1], m[4], m[7], m[2], m[5], m[8]];
    proof {
        assert forall|i: int| 0 <= i < 9 implies r@[i] == spec_mat3_transpose(m@)[i] by {
            assert(spec_mat3_transpose(m@)[i] == m@[3 * (i % 3) + (i / 3)]);
        }
        assert(r@ =~= spec_mat3_transpose(m@));
    }
    r
}

/// The normal matrix a model matrix yields: inverse-transpose of its
/// upper-left 3x3 block.
pub open spec fn spec_normal_matrix(m: Seq<u32>) -> Seq<u32> {
    spec_mat3_transpose(mat3_inverse_of(spec_mat3_of_mat4(m)))
}

/// The normal matrix of a model matrix, for shading under non-uniform
/// scale: transpose of the inverse of the upper 3x3 block.
pub fn normal_matrix(m: &[u32; 16]) -> (r: [u32; 9])
    ensures
        r@ == spec_normal_matrix(m@),
{
    let block = mat3_of_mat4(m);
    let inv = mat3_inverse(&block);
    mat3_transpose(&inv)
}

/// The translation column of a column-major 4x4 matrix.
pub open spec fn spec_mat4_translation(m: Seq<u32>) -> Seq<u32> {
    seq![m[12], m[13], m[14]]
}

/// Executable extraction of the translation column.
pub fn mat4_translation(m: &[u32; 16]) -> (r: [u32; 3])
    ensures
        r@ == spec_mat4_translation(m@),
{
    let r = [m[12], m[13], m[14]];
    proof {
        assert(r@ =~= spec_mat4_translation(m@));
    }
    r
}

/// The homogeneous matrix of a pure translation, column-major: identity
/// rotation with the translation in the last column.
pub open spec fn spec_translation_mat4(t: Seq<u32>) -> Seq<u32> {
    seq![
        F32_ONE_BITS,
        0u32,
        0u32,
        0u32,
        0u32,
        F32_ONE_BITS,
        0u32,
        0u32,
        0u32,
        0u32,
        F32_ONE_BITS,
        0u32,
        t[0],
        t[1],
        t[2],
        F32_ONE_BITS,
    ]
}

/// Executable construction of a pure-translation model matrix.
pub fn translation_mat4(t: &[u32; 3]) -> (r: [u32; 16])
    ensures
        r@ == spec_translation_mat4(t@),
{
    let r = [
        F32_ONE_BITS,
        0u32,
        0u32,
        0u32,
        0u32,
        F32_ONE_BITS,
        0u32,
        0u32,
        0u32,
        0u32,
        F32_ONE_BITS,
        0u32,
        t[0],
        t[1],
        t[2],
        F32_ONE_BITS,
    ];
    proof {
        assert(r@ =~= spec_translation_mat4(t@));
    }
    r
}

/// Whether an instance lies behind the camera: the component of the vector
/// from the camera to the instance's translation along the camera's forward
/// direction is strictly negative.
pub open spec fn spec_behind_camera(model: Seq<u32>, cam_pos: Seq<u32>, cam_fwd: Seq<u32>) -> bool {
    spec_f32_bits_neg(v3_dot_of(v3_sub_of(spec_mat4_translation(model), cam_pos), cam_fwd))
}

/// Executable culling test against the camera.
pub fn behind_camera(model: &[u32; 16], cam_pos: &[u32; 3], cam_fwd: &[u32; 3]) -> (r: bool)
    ensures
        r == spec_behind_camera(model@, cam_pos@, cam_fwd@),
{
    let pos = mat4_translation(model);
    let to_obj = v3_sub(&pos, cam_pos);
    let d = v3_dot(&to_obj, cam_fwd);
    f32_bits_neg(d)
}

} // verus!
