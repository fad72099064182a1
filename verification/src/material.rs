//! Surface materials and the scattering contract.
//!
//! `Lambertian` diffuses: it always scatters, in a direction the
//! normal plus a random unit offset.  `Metal` mirrors: it reflects
//! the incoming direction and absorbs the ray whenever the reflected
//! direction does not leave the surface.

use vstd::prelude::*;
use crate::fixed::{SCALE, tdiv, lemma_mul_bound, lemma_tdiv_bound};
use crate::vec3::{
    Vec3, V3, in_box, raw_norm2, color_ok, sdot, unit_ish, v3_sum, v3_scale, v3_zero, v3_unit,
    v3_reflect, lemma_sdot_bound, lemma_nonzero_norm2,
};
use crate::ray::{Ray, ray_wf};
use crate::hitable::HitRecord;
use crate::rng::{Rng, rand_unit_vec, ruv_spec};

verus! {

/// The closed set of material variants.
#[derive(Clone, Copy, PartialEq, Eq, Structural, Debug)]
pub enum Material {
    Lambertian { albedo: Vec3 },
    Metal { albedo: Vec3 },
}

/// The material's base reflective color.
pub open spec fn albedo_of(m: Material) -> V3 {
    match m {
        Material::Lambertian { albedo } => albedo@,
        Material::Metal { albedo } => albedo@,
    }
}

/// A well-formed material: albedo channels in `[0, 1]`.
pub open spec fn mat_wf(m: Material) -> bool {
    color_ok(albedo_of(m))
}

/// What every hit record handed to scattering satisfies.
pub open spec fn rec_wf(rec: HitRecord) -> bool {
    &&& in_box(rec.p@, 0x800_0000)
    &&& in_box(rec.normal@, 131072)
    &&& raw_norm2(rec.normal@) >= 1
}

/// An attenuation color plus the scattered ray.
pub struct ScatterResult {
    pub attenuation: Vec3,
    pub scattered: Ray,
}

/// The small offset (about 0.001) applied along the normal to a
/// diffuse bounce origin, against shadow acne.
pub const OFFSET: i64 = 66;

/// Where a diffuse bounce starts: the hit point nudged along the
/// normal.
pub open spec fn diffuse_origin(p: V3, n: V3) -> V3 {
    v3_sum(p, v3_scale(n, OFFSET as int))
}

/// A diffuse bounce direction: the normal plus some unit offset `u`,
/// or the normal itself where that sum vanishes; never zero, and
/// small enough for further intersection queries.
pub open spec fn diffuse_dir_ok(d: V3, n: V3) -> bool {
    &&& in_box(d, 3 * SCALE as int)
    &&& raw_norm2(d) >= 1
    &&& exists|u: V3|
        #[trigger] unit_ish(u) && in_box(u, SCALE as int) && d == (if v3_sum(n, u) == v3_zero() {
            n
        } else {
            v3_sum(n, u)
        })
}

/// Scattering as a function of its inputs: what the ray becomes at a
/// hit with point `p` and normal `n`, given the incoming direction
/// `din` and the generator state.  The first component is the
/// attenuation, origin and direction of the scattered ray, or
/// nothing when the ray is absorbed; the second is the generator
/// state left behind.
pub open spec fn scatter_spec(m: Material, din: V3, p: V3, n: V3, state: u64) -> (
    Option<(V3, V3, V3)>,
    u64,
) {
    match m {
        Material::Lambertian { albedo } => {
            let draw = ruv_spec(state, 0);
            let sum = v3_sum(n, draw.0);
            let dir = if sum == v3_zero() {
                n
            } else {
                sum
            };
            (Some((albedo@, diffuse_origin(p, n), dir)), draw.1)
        },
        Material::Metal { albedo } => {
            let refl = v3_reflect(v3_unit(din), n);
            if sdot(refl, n) > 0 {
                (Some((albedo@, p, refl)), state)
            } else {
                (None, state)
            }
        },
    }
}

impl Material {
    /// Scatter the incoming ray at a hit, or absorb it.
    pub fn scatter(&self, ray: &Ray, rec: &HitRecord, rng: &mut Rng) -> (res: Option<
        ScatterResult,
    >)
        requires
            ray_wf(*ray),
            rec_wf(*rec),
            mat_wf(*self),
        ensures
            ({
                let refl = v3_reflect(v3_unit(ray.direction@), rec.normal@);
                match res {
                    Some(sr) => {
                        &&& sr.attenuation@ == albedo_of(*self)
                        &&& color_ok(sr.attenuation@)
                        &&& ray_wf(sr.scattered)
                        &&& match *self {
                            Material::Lambertian { albedo } => {
                                &&& sr.scattered.origin@ == diffuse_origin(rec.p@, rec.normal@)
                                &&& diffuse_dir_ok(sr.scattered.direction@, rec.normal@)
                            },
                            Material::Metal { albedo } => {
                                &&& sdot(refl, rec.normal@) > 0
                                &&& sr.scattered.origin@ == rec.p@
                                &&& sr.scattered.direction@ == refl
                            },
                        }
                    },
                    None => {
                        &&& (*self) matches Material::Metal { .. }
                        &&& sdot(refl, rec.normal@) <= 0
                    },
                }
            }),
            ({
                let sres = scatter_spec(*self, ray.direction@, rec.p@, rec.normal@, old(rng).state);
                &&& final(rng).state == sres.1
                &&& match res {
                    Some(sr) => sres.0 == Some(
                        (sr.attenuation@, sr.scattered.origin@, sr.scattered.direction@),
                    ),
                    None => sres.0 is None,
                }
            }),
    {
        match *self {
            Material::Lambertian { albedo } => {
                let u = rand_unit_vec(rng);
                let mut dir = rec.normal.vadd(u);
                if dir.x == 0 && dir.y == 0 && dir.z == 0 {
                    dir = rec.normal;
                }
                proof {
                    if dir@ != rec.normal@ || v3_sum(rec.normal@, u@) != v3_zero() {
                        lemma_nonzero_norm2(dir@);
                    }
                    assert(in_box(u@, SCALE as int) && dir@ == (if v3_sum(rec.normal@, u@)
                        == v3_zero() {
                        rec.normal@
                    } else {
                        v3_sum(rec.normal@, u@)
                    }));
                    lemma_mul_bound(rec.normal@.x, OFFSET as int, 131072, OFFSET as int);
                    lemma_mul_bound(rec.normal@.y, OFFSET as int, 131072, OFFSET as int);
                    lemma_mul_bound(rec.normal@.z, OFFSET as int, 131072, OFFSET as int);
                    lemma_tdiv_bound(rec.normal@.x * OFFSET, SCALE as int, 132);
                    lemma_tdiv_bound(rec.normal@.y * OFFSET, SCALE as int, 132);
                    lemma_tdiv_bound(rec.normal@.z * OFFSET, SCALE as int, 132);
                }
                let off = rec.normal.vscale(OFFSET);
                let origin = rec.p.vadd(off);
                Some(
                    ScatterResult {
                        attenuation: albedo,
                        scattered: Ray { origin, direction: dir },
                    },
                )
            },
            Material::Metal { albedo } => {
                let unit = ray.direction.vunit();
                let refl = unit.vreflect(rec.normal);
                proof {
                    lemma_sdot_bound(unit@, rec.normal@, SCALE as int, 131072, 393216);
                    lemma_mul_bound(2 * sdot(unit@, rec.normal@), rec.normal@.x, 786432, 131072);
                    lemma_mul_bound(2 * sdot(unit@, rec.normal@), rec.normal@.y, 786432, 131072);
                    lemma_mul_bound(2 * sdot(unit@, rec.normal@), rec.normal@.z, 786432, 131072);
                    lemma_tdiv_bound(2 * sdot(unit@, rec.normal@) * rec.normal@.x, SCALE as int, 1572864);
                    lemma_tdiv_bound(2 * sdot(unit@, rec.normal@) * rec.normal@.y, SCALE as int, 1572864);
                    lemma_tdiv_bound(2 * sdot(unit@, rec.normal@) * rec.normal@.z, SCALE as int, 1572864);
                }
                let d: i64 = refl.vdot(rec.normal);
                if d > 0 {
                    proof {
                        if refl@.x == 0 && refl@.y == 0 && refl@.z == 0 {
                            assert(refl@.x * rec.normal@.x == 0 && refl@.y * rec.normal@.y == 0
                                && refl@.z * rec.normal@.z == 0) by (nonlinear_arith)
                                requires
                                    refl@.x == 0,
                                    refl@.y == 0,
                                    refl@.z == 0,
                            ;
                            vstd::arithmetic::div_mod::lemma_div_of0(SCALE as int);
                            assert(sdot(refl@, rec.normal@) == 0);
                        }
                        lemma_nonzero_norm2(refl@);
                    }
                    Some(
                        ScatterResult {
                            attenuation: albedo,
                            scattered: Ray { origin: rec.p, direction: refl },
                        },
                    )
                } else {
                    None
                }
            },
        }
    }
}

} // verus!
