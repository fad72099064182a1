//! Intersection tests: head-on hits, nearest-hit selection over a
//! collection, interval clipping, and the two-root fallback.

use raytrace::hitable::{Hitable, HitableList, SceneError, Sphere};
use raytrace::material::Material;
use raytrace::ray::Ray;
use raytrace::vec3::Vec3;

fn gray() -> Material {
    Material::Lambertian { albedo: Vec3 { x: 32768, y: 32768, z: 32768 } }
}

fn down_z_ray() -> Ray {
    Ray {
        origin: Vec3 { x: 0, y: 0, z: 0 },
        direction: Vec3 { x: 0, y: 0, z: -65536 },
    }
}

const T_INF: i64 = i64::MAX;

#[test]
fn construction_accepts_valid_spheres() {
    let center = Vec3 { x: 0, y: 0, z: -3 * 65536 };
    let s = Sphere::create(center, 65536, gray()).unwrap();
    assert_eq!(s.center, center);
    assert_eq!(s.radius, 65536);
    assert_eq!(s.material, gray());
}

#[test]
fn construction_rejects_center_out_of_range() {
    let far = Vec3 { x: 0x800_0001, y: 0, z: 0 };
    assert_eq!(
        Sphere::create(far, 65536, gray()),
        Err(SceneError::CenterOutOfRange)
    );
}

#[test]
fn construction_rejects_nonpositive_radius() {
    let center = Vec3 { x: 0, y: 0, z: 0 };
    assert_eq!(
        Sphere::create(center, 0, gray()),
        Err(SceneError::RadiusOutOfRange)
    );
    assert_eq!(
        Sphere::create(center, -65536, gray()),
        Err(SceneError::RadiusOutOfRange)
    );
}

#[test]
fn construction_rejects_out_of_range_albedo() {
    let center = Vec3 { x: 0, y: 0, z: 0 };
    let glowing = Material::Lambertian { albedo: Vec3 { x: 65537, y: 0, z: 0 } };
    assert_eq!(
        Sphere::create(center, 65536, glowing),
        Err(SceneError::AlbedoOutOfRange)
    );
}

#[test]
fn collection_construction_reports_first_error() {
    let good = Sphere {
        center: Vec3 { x: 0, y: 0, z: -65536 },
        radius: 65536,
        material: gray(),
    };
    let bad = Sphere { radius: 0, ..good };
    assert!(HitableList::from_spheres(vec![good, good]).is_ok());
    assert_eq!(
        HitableList::from_spheres(vec![good, bad]).err(),
        Some(SceneError::RadiusOutOfRange)
    );
}

#[test]
fn head_on_hit_distance_and_normal() {
    // A unit sphere three units ahead: t is the distance to the
    // center minus the radius, and the normal is the reversed ray
    // direction.
    let s = Sphere {
        center: Vec3 { x: 0, y: 0, z: -3 * 65536 },
        radius: 65536,
        material: gray(),
    };
    let rec = s.hit(&down_z_ray(), 66, T_INF).unwrap();
    assert_eq!(rec.t, 131072);
    assert_eq!(rec.p, Vec3 { x: 0, y: 0, z: -131072 });
    assert_eq!(rec.normal, Vec3 { x: 0, y: 0, z: 65536 });
}

#[test]
fn miss_reports_none() {
    let s = Sphere {
        center: Vec3 { x: 10 * 65536, y: 0, z: -3 * 65536 },
        radius: 65536,
        material: gray(),
    };
    assert!(s.hit(&down_z_ray(), 66, T_INF).is_none());
}

#[test]
fn sphere_behind_ray_not_hit() {
    let s = Sphere {
        center: Vec3 { x: 0, y: 0, z: 3 * 65536 },
        radius: 65536,
        material: gray(),
    };
    assert!(s.hit(&down_z_ray(), 66, T_INF).is_none());
}

#[test]
fn inside_sphere_hits_far_side() {
    // From the center of a unit sphere the smaller root is negative,
    // so the larger root is reported.
    let s = Sphere {
        center: Vec3 { x: 0, y: 0, z: 0 },
        radius: 65536,
        material: gray(),
    };
    let rec = s.hit(&down_z_ray(), 66, T_INF).unwrap();
    assert_eq!(rec.t, 65536);
    assert_eq!(rec.normal, Vec3 { x: 0, y: 0, z: -65536 });
}

fn stacked_scene() -> HitableList {
    // Overlapping spheres at distances 1, 2, 3 along the same ray.
    let mut objects: Vec<Sphere> = Vec::new();
    for k in 1..4i64 {
        objects.push(Sphere {
            center: Vec3 { x: 0, y: 0, z: -k * 65536 },
            radius: 32768,
            material: Material::Lambertian {
                albedo: Vec3 { x: k * 10000, y: 0, z: 0 },
            },
        });
    }
    HitableList { objects }
}

#[test]
fn collection_returns_globally_nearest() {
    let rec = stacked_scene().hit(&down_z_ray(), 66, T_INF).unwrap();
    assert_eq!(rec.t, 32768);
    assert_eq!(
        rec.material,
        Material::Lambertian { albedo: Vec3 { x: 10000, y: 0, z: 0 } }
    );
}

#[test]
fn collection_nearest_independent_of_order() {
    let mut scene = stacked_scene();
    scene.objects.reverse();
    let rec = scene.hit(&down_z_ray(), 66, T_INF).unwrap();
    assert_eq!(rec.t, 32768);
}

#[test]
fn collection_respects_interval() {
    // With t_min past the nearest surface, the first sphere is hit
    // on its far side instead.
    let rec = stacked_scene().hit(&down_z_ray(), 40000, T_INF).unwrap();
    assert_eq!(rec.t, 98304);
    assert!(40000 <= rec.t && rec.t < T_INF);
    // And an empty interval yields nothing at all.
    assert!(stacked_scene().hit(&down_z_ray(), 66, 66).is_none());
}

#[test]
fn collection_miss_reports_none() {
    let up = Ray {
        origin: Vec3 { x: 0, y: 0, z: 0 },
        direction: Vec3 { x: 0, y: 65536, z: 0 },
    };
    assert!(stacked_scene().hit(&up, 66, T_INF).is_none());
}

#[test]
fn hitable_variants_agree() {
    let s = Sphere {
        center: Vec3 { x: 0, y: 0, z: -3 * 65536 },
        radius: 65536,
        material: gray(),
    };
    let lone = Hitable::Sphere(s);
    let collected = Hitable::Collection(HitableList { objects: vec![s] });
    let a = lone.hit(&down_z_ray(), 66, T_INF).unwrap();
    let b = collected.hit(&down_z_ray(), 66, T_INF).unwrap();
    assert_eq!(a, b);
}
