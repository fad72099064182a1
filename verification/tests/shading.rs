//! Scattering, camera, background and full-integrator tests.

use raytrace::camera::Camera;
use raytrace::color::{background, ray_color};
use raytrace::hitable::{Hitable, HitableList, HitRecord, Sphere};
use raytrace::material::Material;
use raytrace::ray::Ray;
use raytrace::rng::{rand_unit_vec, Rng};
use raytrace::vec3::Vec3;

const T_INF: i64 = i64::MAX;

fn ground_material() -> Material {
    Material::Lambertian { albedo: Vec3 { x: 52428, y: 52428, z: 0 } }
}

/// The three-sphere reference scene: a large ground sphere and two
/// small ones, the right one metallic.
fn reference_scene(metal_right: bool) -> Hitable {
    let red = Vec3 { x: 45875, y: 19660, z: 19660 };
    let right_material = if metal_right {
        Material::Metal { albedo: red }
    } else {
        Material::Lambertian { albedo: red }
    };
    Hitable::Collection(HitableList {
        objects: vec![
            Sphere {
                center: Vec3 { x: -32768, y: 0, z: -65536 },
                radius: 32768,
                material: Material::Lambertian { albedo: red },
            },
            Sphere {
                center: Vec3 { x: 32768, y: 0, z: -65536 },
                radius: 32768,
                material: right_material,
            },
            Sphere {
                center: Vec3 { x: 0, y: -6586368, z: -65536 },
                radius: 6553600,
                material: ground_material(),
            },
        ],
    })
}

#[test]
fn rng_is_deterministic_and_never_zero() {
    let mut a = Rng::new(42);
    let mut b = Rng::new(42);
    for _ in 0..10 {
        assert_eq!(a.next(), b.next());
        assert_ne!(a.state, 0);
    }
    assert_ne!(Rng::new(0).state, 0);
}

#[test]
fn samples_stay_in_unit_range() {
    let mut rng = Rng::new(3);
    for _ in 0..100 {
        let s = rng.sample_unit();
        assert!(-65536 <= s && s <= 65536);
        let v = rand_unit_vec(&mut rng);
        assert!(v.x.abs() <= 65536 && v.y.abs() <= 65536 && v.z.abs() <= 65536);
    }
}

#[test]
fn camera_rays_span_the_viewport() {
    let cam = Camera::new();
    let corner = cam.get_ray(0, 0);
    assert_eq!(corner.origin, Vec3 { x: 0, y: 0, z: 0 });
    assert_eq!(corner.direction, Vec3 { x: -116508, y: -65536, z: -65536 });
    let center = cam.get_ray(32768, 32768);
    assert_eq!(center.direction, Vec3 { x: 0, y: 0, z: -65536 });
}

#[test]
fn lambertian_always_scatters_from_offset_origin() {
    let rec = HitRecord {
        p: Vec3 { x: 0, y: -32768, z: -65536 },
        normal: Vec3 { x: 0, y: 65536, z: 0 },
        t: 65536,
        material: ground_material(),
    };
    let ray = Ray {
        origin: Vec3 { x: 0, y: 0, z: 0 },
        direction: Vec3 { x: 0, y: -32768, z: -65536 },
    };
    let mut rng = Rng::new(5);
    let sr = rec.material.scatter(&ray, &rec, &mut rng).unwrap();
    assert_eq!(sr.attenuation, Vec3 { x: 52428, y: 52428, z: 0 });
    // Origin nudged along the up normal by 66 (about 0.001).
    assert_eq!(sr.scattered.origin, Vec3 { x: 0, y: -32702, z: -65536 });
    // Direction is the normal plus a unit offset, never zero.
    let d = sr.scattered.direction;
    assert!(d.x != 0 || d.y != 0 || d.z != 0);
    assert!(d.x.abs() <= 3 * 65536 && d.y.abs() <= 3 * 65536 && d.z.abs() <= 3 * 65536);
}

#[test]
fn metal_reflects_exactly() {
    let rec = HitRecord {
        p: Vec3 { x: 0, y: 0, z: -65536 },
        normal: Vec3 { x: 0, y: 65536, z: 0 },
        t: 65536,
        material: Material::Metal { albedo: Vec3 { x: 45875, y: 19660, z: 19660 } },
    };
    let ray = Ray {
        origin: Vec3 { x: -65536, y: 65536, z: -65536 },
        direction: Vec3 { x: 65536, y: -65536, z: 0 },
    };
    let mut rng = Rng::new(5);
    let sr = rec.material.scatter(&ray, &rec, &mut rng).unwrap();
    assert_eq!(sr.scattered.origin, rec.p);
    assert_eq!(sr.scattered.direction, Vec3 { x: 46341, y: 46341, z: 0 });
}

#[test]
fn metal_absorbs_grazing_reflection() {
    // An incoming direction already leaving the surface reflects
    // back below the (tilted) normal: the ray is absorbed.
    let rec = HitRecord {
        p: Vec3 { x: 0, y: 0, z: -65536 },
        normal: Vec3 { x: 0, y: 65536, z: 0 },
        t: 65536,
        material: Material::Metal { albedo: Vec3 { x: 45875, y: 19660, z: 19660 } },
    };
    let ray = Ray {
        origin: Vec3 { x: 0, y: 0, z: 0 },
        direction: Vec3 { x: 32768, y: 65536, z: 0 },
    };
    let mut rng = Rng::new(5);
    assert!(rec.material.scatter(&ray, &rec, &mut rng).is_none());
}

#[test]
fn background_gradient_exact() {
    let horizontal = background(&Vec3 { x: 65536, y: 0, z: 0 });
    assert_eq!(horizontal, Vec3 { x: 49152, y: 55705, z: 65536 });
    let up = background(&Vec3 { x: 0, y: 65536, z: 0 });
    assert_eq!(up, Vec3 { x: 32768, y: 45875, z: 65536 });
}

#[test]
fn escaping_ray_returns_background_for_any_scene() {
    let ray = Ray {
        origin: Vec3 { x: 0, y: 0, z: 0 },
        direction: Vec3 { x: 0, y: 65536, z: 0 },
    };
    let mut rng = Rng::new(9);
    let a = ray_color(&ray, &reference_scene(true), 10, &mut rng);
    let b = ray_color(&ray, &reference_scene(false), 10, &mut rng);
    let empty = Hitable::Collection(HitableList { objects: vec![] });
    let c = ray_color(&ray, &empty, 10, &mut rng);
    let sky = Vec3 { x: 32768, y: 45875, z: 65536 };
    assert_eq!(a, sky);
    assert_eq!(b, sky);
    assert_eq!(c, sky);
}

#[test]
fn depth_zero_is_black() {
    let cam = Camera::new();
    let ray = cam.get_ray(32768, 16384);
    let mut rng = Rng::new(11);
    let c = ray_color(&ray, &reference_scene(true), 0, &mut rng);
    assert_eq!(c, Vec3 { x: 0, y: 0, z: 0 });
}

#[test]
fn deep_all_lambertian_recursion_terminates() {
    let cam = Camera::new();
    let ray = cam.get_ray(32768, 16384);
    let mut rng = Rng::new(13);
    let c = ray_color(&ray, &reference_scene(false), 50, &mut rng);
    assert!(0 <= c.x && c.x <= 65536);
    assert!(0 <= c.y && c.y <= 65536);
    assert!(0 <= c.z && c.z <= 65536);
}

#[test]
fn three_sphere_scene_center_ray() {
    // The ray through the image center, slightly below the horizon,
    // strikes the ground sphere tangentially at (0, -0.5, -1).
    let cam = Camera::new();
    let ray = cam.get_ray(32768, 16384);
    assert_eq!(ray.direction, Vec3 { x: 0, y: -32768, z: -65536 });
    let world = reference_scene(true);
    let rec = world.hit(&ray, 66, T_INF).unwrap();
    assert_eq!(rec.t, 65536);
    assert_eq!(rec.p, Vec3 { x: 0, y: -32768, z: -65536 });
    assert_eq!(rec.normal, Vec3 { x: 0, y: 65536, z: 0 });
    assert_eq!(rec.material, ground_material());
}

#[test]
fn seeded_render_is_reproducible() {
    let cam = Camera::new();
    let ray = cam.get_ray(32768, 16384);
    let world = reference_scene(true);
    let mut rng1 = Rng::new(2024);
    let c1 = ray_color(&ray, &world, 8, &mut rng1);
    let mut rng2 = Rng::new(2024);
    let c2 = ray_color(&ray, &world, 8, &mut rng2);
    assert_eq!(c1, c2);
    assert!(0 <= c1.x && c1.x <= 65536);
    assert!(0 <= c1.y && c1.y <= 65536);
    assert!(0 <= c1.z && c1.z <= 65536);

    // The integrator's first step decomposes: the same seed, driven
    // manually through hit + scatter + recursion, gives the same
    // color.
    let mut rng3 = Rng::new(2024);
    let rec = world.hit(&ray, 66, T_INF).unwrap();
    let sr = rec.material.scatter(&ray, &rec, &mut rng3).unwrap();
    let bounce = ray_color(&sr.scattered, &world, 7, &mut rng3);
    let c3 = sr.attenuation.vcmul(bounce);
    assert_eq!(c1, c3);
}
