//! The bit-level math layer against glam computed directly: every wrapper
//! must hand back the bits of the real computation, not its argument.

use glam::{Mat3, Mat4, Quat, Vec3};
use scenecore::mathops::{
    behind_camera, f32_bits_neg, mat3_inverse, mat3_of_mat4, mat3_transpose, mat4_determinant,
    mat4_from_rotation_translation, mat4_to_srt, mat4_translation, normal_matrix,
    quat_to_scaled_axis, translation_mat4, v3_add, v3_cross, v3_dot, v3_mul, v3_normalize, v3_sub,
};

fn vbits(v: Vec3) -> [u32; 3] {
    [v.x.to_bits(), v.y.to_bits(), v.z.to_bits()]
}

fn m4bits(m: Mat4) -> [u32; 16] {
    let mut out = [0u32; 16];
    for (i, f) in m.to_cols_array().iter().enumerate() {
        out[i] = f.to_bits();
    }
    out
}

fn m3bits(m: Mat3) -> [u32; 9] {
    let mut out = [0u32; 9];
    for (i, f) in m.to_cols_array().iter().enumerate() {
        out[i] = f.to_bits();
    }
    out
}

fn qbits(q: Quat) -> [u32; 4] {
    [q.x.to_bits(), q.y.to_bits(), q.z.to_bits(), q.w.to_bits()]
}

#[test]
fn vector_wrappers_compute_real_results() {
    let a = Vec3::new(1.0, 2.0, 3.0);
    let b = Vec3::new(4.0, -5.0, 0.5);
    assert_eq!(v3_add(&vbits(a), &vbits(b)), vbits(a + b));
    assert_eq!(v3_sub(&vbits(a), &vbits(b)), vbits(a - b));
    assert_eq!(v3_mul(&vbits(a), &vbits(b)), vbits(a * b));
    assert_eq!(v3_cross(&vbits(a), &vbits(b)), vbits(a.cross(b)));
    assert_eq!(v3_dot(&vbits(a), &vbits(b)), a.dot(b).to_bits());
    assert_eq!(
        v3_cross(&vbits(Vec3::X), &vbits(Vec3::Y)),
        vbits(Vec3::Z)
    );
    assert_eq!(v3_normalize(&vbits(Vec3::new(3.0, 0.0, 0.0))), vbits(Vec3::X));
}

#[test]
fn matrix_wrappers_compute_real_results() {
    let m = Mat4::from_scale_rotation_translation(
        Vec3::new(2.0, 1.0, 0.5),
        Quat::from_rotation_y(0.7),
        Vec3::new(1.0, 2.0, 3.0),
    );
    assert_eq!(mat4_determinant(&m4bits(m)), m.determinant().to_bits());

    let m3 = Mat3::from_mat4(m);
    assert_eq!(mat3_of_mat4(&m4bits(m)), m3bits(m3));
    assert_eq!(mat3_transpose(&m3bits(m3)), m3bits(m3.transpose()));
    assert_eq!(mat3_inverse(&m3bits(m3)), m3bits(m3.inverse()));
    assert_eq!(
        normal_matrix(&m4bits(m)),
        m3bits(Mat3::from_mat4(m).inverse().transpose())
    );

    let (s, q, t) = m.to_scale_rotation_translation();
    let (sb, qb, tb) = mat4_to_srt(&m4bits(m));
    assert_eq!(sb, vbits(s));
    assert_eq!(qb, qbits(q));
    assert_eq!(tb, vbits(t));

    assert_eq!(quat_to_scaled_axis(&qbits(q)), vbits(q.to_scaled_axis()));
    assert_eq!(
        mat4_from_rotation_translation(&qbits(q), &vbits(t)),
        m4bits(Mat4::from_rotation_translation(q, t))
    );
    assert_eq!(mat4_translation(&m4bits(m)), vbits(Vec3::new(1.0, 2.0, 3.0)));
}

#[test]
fn translation_matrix_matches_glam() {
    let t = Vec3::new(4.0, -1.5, 9.25);
    assert_eq!(
        translation_mat4(&vbits(t)),
        m4bits(Mat4::from_translation(t))
    );
}

#[test]
fn float_sign_test_matches_ieee_ordering() {
    assert!(f32_bits_neg((-1.0f32).to_bits()));
    assert!(f32_bits_neg((-1.0e-30f32).to_bits()));
    assert!(f32_bits_neg(f32::NEG_INFINITY.to_bits()));
    assert!(!f32_bits_neg(0.0f32.to_bits()));
    assert!(!f32_bits_neg((-0.0f32).to_bits()));
    assert!(!f32_bits_neg(1.0f32.to_bits()));
    assert!(!f32_bits_neg(f32::NAN.to_bits()));
    // a NaN with the sign bit set still compares false against zero
    assert!(!f32_bits_neg((-f32::NAN).to_bits()));

    // exhaustively: the bit test agrees with the float comparison on a
    // sweep of patterns
    for base in [0u32, 1, 0x3F80_0000, 0x7F7F_FFFF, 0x7F80_0000, 0x7FC0_0000] {
        for sign in [0u32, 0x8000_0000] {
            let bits = base | sign;
            assert_eq!(f32_bits_neg(bits), f32::from_bits(bits) < 0.0, "bits {bits:#x}");
        }
    }
}

#[test]
fn behind_camera_is_the_sign_of_the_forward_component() {
    let cam = vbits(Vec3::ZERO);
    let fwd = vbits(Vec3::X);
    let in_front = m4bits(Mat4::from_translation(Vec3::new(5.0, 0.0, 0.0)));
    let behind = m4bits(Mat4::from_translation(Vec3::new(-5.0, 2.0, 0.0)));
    let at_camera = m4bits(Mat4::from_translation(Vec3::ZERO));
    assert!(!behind_camera(&in_front, &cam, &fwd));
    assert!(behind_camera(&behind, &cam, &fwd));
    // a zero dot product is not strictly negative: kept
    assert!(!behind_camera(&at_camera, &cam, &fwd));
}

#[test]
fn determinant_sign_detects_mirrored_transforms() {
    let mirrored = Mat4::from_scale(Vec3::new(-1.0, 1.0, 1.0));
    let plain = Mat4::from_scale(Vec3::new(1.0, 2.0, 3.0));
    assert!(f32_bits_neg(mat4_determinant(&m4bits(mirrored))));
    assert!(!f32_bits_neg(mat4_determinant(&m4bits(plain))));
}
