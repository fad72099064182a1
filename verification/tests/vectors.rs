//! Exact-value tests for the fixed-point vector and scalar layer.

use raytrace::fixed::{div_fx, isqrt_u128, SCALE};
use raytrace::ray::Ray;
use raytrace::vec3::Vec3;

#[test]
fn scale_is_one() {
    assert_eq!(SCALE, 65536);
}

#[test]
fn div_fx_truncates_toward_zero() {
    assert_eq!(div_fx(7, 2), 3);
    assert_eq!(div_fx(-7, 2), -3);
    assert_eq!(div_fx(0, 65536), 0);
    assert_eq!(div_fx(-1, 65536), 0);
}

#[test]
fn isqrt_exact_values() {
    assert_eq!(isqrt_u128(0), 0);
    assert_eq!(isqrt_u128(1), 1);
    assert_eq!(isqrt_u128(3), 1);
    assert_eq!(isqrt_u128(4), 2);
    assert_eq!(isqrt_u128(4294967296), 65536);
    assert_eq!(isqrt_u128(4294967295), 65535);
}

#[test]
fn add_sub_componentwise() {
    let a = Vec3 { x: 65536, y: -131072, z: 3 };
    let b = Vec3 { x: 1, y: 2, z: -3 };
    assert_eq!(a.vadd(b), Vec3 { x: 65537, y: -131070, z: 0 });
    assert_eq!(a.vsub(b), Vec3 { x: 65535, y: -131074, z: 6 });
}

#[test]
fn scale_fixed_point() {
    let a = Vec3 { x: 65536, y: -131072, z: 0 };
    assert_eq!(a.vscale(32768), Vec3 { x: 32768, y: -65536, z: 0 });
}

#[test]
fn dot_of_unit_axes() {
    let x = Vec3 { x: 65536, y: 0, z: 0 };
    assert_eq!(x.vdot(x), 65536);
    let y = Vec3 { x: 0, y: 65536, z: 0 };
    assert_eq!(x.vdot(y), 0);
}

#[test]
fn cross_of_unit_axes() {
    let x = Vec3 { x: 65536, y: 0, z: 0 };
    let y = Vec3 { x: 0, y: 65536, z: 0 };
    assert_eq!(x.vcross(y), Vec3 { x: 0, y: 0, z: 65536 });
}

#[test]
fn length_of_three_four_five() {
    let v = Vec3 { x: 3 * 65536, y: 4 * 65536, z: 0 };
    assert_eq!(v.vlen(), 5 * 65536);
}

#[test]
fn normalize_three_four_five() {
    let v = Vec3 { x: 3 * 65536, y: 4 * 65536, z: 0 };
    assert_eq!(v.vunit(), Vec3 { x: 39321, y: 52428, z: 0 });
}

#[test]
fn reflect_across_up_normal() {
    let v = Vec3 { x: 65536, y: -65536, z: 0 };
    let n = Vec3 { x: 0, y: 65536, z: 0 };
    assert_eq!(v.vreflect(n), Vec3 { x: 65536, y: 65536, z: 0 });
}

#[test]
fn constructors_build_componentwise() {
    assert_eq!(Vec3::new(1, -2, 3), Vec3 { x: 1, y: -2, z: 3 });
    assert_eq!(Vec3::zero(), Vec3 { x: 0, y: 0, z: 0 });
}

#[test]
fn ray_evaluates_parametrically() {
    let ray = Ray::new(Vec3::new(65536, 0, 0), Vec3::new(0, 65536, 0));
    // Half a unit along the direction from the origin point.
    assert_eq!(ray.at(32768), Vec3 { x: 65536, y: 32768, z: 0 });
    // Negative parameters walk backward.
    assert_eq!(ray.at(-65536), Vec3 { x: 65536, y: -65536, z: 0 });
}

#[test]
fn componentwise_color_product() {
    let a = Vec3 { x: 32768, y: 65536, z: 0 };
    let b = Vec3 { x: 32768, y: 45875, z: 65536 };
    assert_eq!(a.vcmul(b), Vec3 { x: 16384, y: 45875, z: 0 });
}
