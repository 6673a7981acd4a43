use scop::matrix::Mat4;
use scop::scalar::{Cos, Scalar, Sin, Sqrt, Tan, ToRadians, SCALE};
use scop::vector::{Vector2, Vector3, Vector4};

fn s(raw: i64) -> Scalar {
    Scalar::from_raw(raw)
}

fn one() -> Scalar {
    Scalar::from_raw(SCALE)
}

fn v4(x: i64, y: i64, z: i64, w: i64) -> Vector4 {
    Vector4 { x: s(x), y: s(y), z: s(z), w: s(w) }
}

fn v3(x: i64, y: i64, z: i64) -> Vector3 {
    Vector3 { x: s(x), y: s(y), z: s(z) }
}

// scalar fixed-point arithmetic

#[test]
fn scalar_arithmetic_is_exact() {
    assert_eq!(s(15000).mul(s(15000)).raw, 22500); // 1.5 * 1.5 == 2.25
    assert_eq!(s(10000).mul(s(-5000)).raw, -5000);
    assert_eq!(s(10000).div(s(30000)).raw, 3333); // 1/3 truncates
    assert_eq!(s(-10000).div(s(30000)).raw, -3333); // toward zero
    assert_eq!(s(70000).add(s(-30000)).raw, 40000);
    assert_eq!(s(70000).sub(s(-30000)).raw, 100000);
    assert_eq!(s(123).neg().raw, -123);
    assert_eq!(Scalar::from_int(-3).raw, -30000);
}

#[test]
fn scalar_min_max_clamp() {
    assert_eq!(s(3).min(s(-7)).raw, -7);
    assert_eq!(s(3).max(s(-7)).raw, 3);
    assert_eq!(s(20000).clamp_unit().raw, 10000);
    assert_eq!(s(-20000).clamp_unit().raw, -10000);
    assert_eq!(s(123).clamp_unit().raw, 123);
}

#[test]
fn scalar_sqrt_is_floor() {
    assert_eq!(s(40000).sqrt().raw, 20000); // sqrt 4 == 2
    assert_eq!(s(20000).sqrt().raw, 14142); // sqrt 2, truncated
    assert_eq!(s(0).sqrt().raw, 0);
    assert_eq!(s(1).sqrt().raw, 100); // sqrt 0.0001 == 0.01
}

#[test]
fn scalar_trig_series_values() {
    assert_eq!(s(0).cos().raw, 10000);
    assert_eq!(s(0).sin().raw, 0);
    assert_eq!(s(0).acos().raw, 15708); // pi/2
    assert_eq!(s(10000).acos().raw, 15708 - 10000 - 1666);
    assert_eq!(Scalar::from_int(180).to_radians().raw, 31416); // pi
    // tan of the truncated series at zero
    assert_eq!(s(0).tan().raw, 0);
}

// vectors

#[test]
fn vector2_norm_and_dot() {
    let v = Vector2 { x: s(30000), y: s(40000) };
    assert_eq!(v.norm().raw, 50000); // a 3-4-5 triangle
    assert_eq!(v.dot(Vector2 { x: one(), y: one() }).raw, 70000);
    assert_eq!(v.norm2().raw, 250000);
}

#[test]
fn vector3_cross_of_basis() {
    let x = v3(10000, 0, 0);
    let y = v3(0, 10000, 0);
    let z = x.cross(y);
    assert_eq!((z.x.raw, z.y.raw, z.z.raw), (0, 0, 10000));
    let mz = y.cross(x);
    assert_eq!((mz.x.raw, mz.y.raw, mz.z.raw), (0, 0, -10000));
}

#[test]
fn vector3_normalized() {
    let v = v3(30000, 40000, 0);
    let n = v.normalized();
    assert_eq!((n.x.raw, n.y.raw, n.z.raw), (6000, 8000, 0));
}

#[test]
fn vector_componentwise_ops() {
    let a = v3(1, 2, 3);
    let b = v3(10, 20, 30);
    let sum = a.add(b);
    assert_eq!((sum.x.raw, sum.y.raw, sum.z.raw), (11, 22, 33));
    let d = b.sub(a);
    assert_eq!((d.x.raw, d.y.raw, d.z.raw), (9, 18, 27));
    let n = a.neg();
    assert_eq!((n.x.raw, n.y.raw, n.z.raw), (-1, -2, -3));
    let half = b.div(Scalar::from_int(2));
    assert_eq!((half.x.raw, half.y.raw, half.z.raw), (5, 10, 15));
    let fields = vec![s(7), s(8), s(9), s(10)];
    let v = Vector4::from_iterator(&fields, 0);
    assert_eq!((v.x.raw, v.y.raw, v.z.raw, v.w.raw), (7, 8, 9, 10));
    assert_eq!(v.get(2).raw, 9);
}

// matrices

#[test]
fn identity_maps_vectors_to_themselves() {
    let m = Mat4::identity();
    for v in [v4(0, 0, 0, 0), v4(12345, -6789, 1, 10000), v4(-1, -2, -3, -4)] {
        let r = m.mul_vec(&v);
        assert_eq!(r, v);
    }
}

#[test]
fn translate_and_inverse_compose_to_identity() {
    let t = v3(23456, -9999, 70001);
    let m = Mat4::translate(&t).mul(&Mat4::translate(&t.neg()));
    assert_eq!(m, Mat4::identity());
}

#[test]
fn translate_moves_points() {
    let t = v3(10000, 20000, 30000);
    let p = v4(0, 0, 0, 10000); // the origin as a homogeneous point
    let r = Mat4::translate(&t).mul_vec(&p);
    assert_eq!(r, v4(10000, 20000, 30000, 10000));
}

#[test]
fn scale_stretches_axes() {
    let m = Mat4::scale(&v3(20000, 30000, 10000));
    let r = m.mul_vec(&v4(10000, 10000, 10000, 10000));
    assert_eq!(r, v4(20000, 30000, 10000, 10000));
}

#[test]
fn transpose_swaps_entries() {
    let t = Mat4::translate(&v3(111, 222, 333)).transpose();
    assert_eq!(t.entry(3, 0).raw, 111);
    assert_eq!(t.entry(3, 1).raw, 222);
    assert_eq!(t.entry(3, 2).raw, 333);
    assert_eq!(t.entry(0, 3).raw, 0);
    assert_eq!(t.entry(0, 0).raw, 10000);
}

#[test]
fn empty_and_add_and_scalar_product() {
    let z = Mat4::empty();
    let i = Mat4::identity();
    assert_eq!(z.add(&i), i);
    let doubled = i.mul_scalar(Scalar::from_int(2));
    assert_eq!(doubled.entry(0, 0).raw, 20000);
    assert_eq!(doubled.entry(0, 1).raw, 0);
}

#[test]
fn rotate_by_zero_angle_is_identity() {
    let axis = v3(0, 10000, 0);
    let m = Mat4::rotate(&axis, s(0));
    assert_eq!(m, Mat4::identity());
}

#[test]
fn rotate_quarter_turn_about_y() {
    // the truncated series at pi/2 is inexact by design; the entries are
    // still pinned exactly by the contract, checked here on one sample
    let axis = v3(0, 10000, 0);
    let m = Mat4::rotate(&axis, s(15708));
    // cos series: 1 - x^2/2 + x^4/24 at 1.5708
    let c = s(15708).cos().raw;
    let sn = s(15708).sin().raw;
    assert_eq!(m.entry(0, 0).raw, c);
    assert_eq!(m.entry(0, 2).raw, sn);
    assert_eq!(m.entry(2, 0).raw, -sn);
    // the axis is unit: (1 - cos) * 1 * 1 + cos gives exactly one
    assert_eq!(m.entry(1, 1).raw, 10000);
    assert!(c < 10000);
    assert_eq!(m.entry(3, 3).raw, 10000);
}

#[test]
fn lookat_from_positive_z() {
    let position = v3(0, 0, 30000);
    let target = v3(0, 0, 0);
    let up = v3(0, 10000, 0);
    let m = Mat4::lookat(position, target, up);
    // the camera basis is the standard one; the translation moves the
    // eye to the origin
    assert_eq!(m.entry(0, 0).raw, 10000);
    assert_eq!(m.entry(1, 1).raw, 10000);
    assert_eq!(m.entry(2, 2).raw, 10000);
    assert_eq!(m.entry(2, 3).raw, -30000);
    assert_eq!(m.entry(3, 3).raw, 10000);
    assert_eq!(m.entry(0, 1).raw, 0);
}

#[test]
fn perspective_maps_near_center_to_depth_zero() {
    // fov 90 degrees, square aspect, near 1, far 3; depth follows the
    // zero-to-one convention: the near plane's center lands on zero
    // after the divide by w
    let m = Mat4::perspective(Scalar::from_int(90), one(), Scalar::from_int(1), Scalar::from_int(3));
    let near_center = v4(0, 0, -10000, 10000);
    let r = m.mul_vec(&near_center);
    assert_eq!(r.z.raw, 0);
    assert_eq!(r.w.raw, 10000); // w' == -z == near
    // the matrix rows carry the documented shape
    assert_eq!(m.entry(3, 2).raw, -10000);
    assert_eq!(m.entry(3, 3).raw, 0);
    assert_eq!(m.entry(2, 2).raw, -15000); // -far/(far-near)
    assert_eq!(m.entry(2, 3).raw, -15000); // -far*near/(far-near)
}

#[test]
fn perspective_scales_by_half_angle_tangent() {
    let m = Mat4::perspective(Scalar::from_int(90), one(), Scalar::from_int(1), Scalar::from_int(3));
    let tan_half = Scalar::from_int(45).to_radians().tan();
    assert_eq!(m.entry(1, 1).raw, one().div(tan_half).raw);
    assert_eq!(m.entry(0, 0).raw, one().div(tan_half.mul(one())).raw);
}
