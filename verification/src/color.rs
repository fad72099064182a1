//! The recursive color integrator: intersect, scatter, recurse, or
//! fall back to the sky gradient.

use vstd::prelude::*;
use crate::fixed::{SCALE, tdiv, lemma_tdiv_mono};
use crate::vec3::{
    Vec3, V3, in_box, raw_norm2, color_ok, sdot, v3_sum, v3_scale, v3_unit, v3_reflect, v3_zero,
    v3_cmul, lemma_cmul_color,
};
use crate::ray::{Ray, ray_wf};
use crate::hitable::{Hitable, Sphere, obj_seq, hitable_wf, all_miss, list_hit};
use crate::material::{Material, scatter_spec};
use crate::rng::Rng;

verus! {

/// The minimum parametric distance accepted when bouncing: about
/// 0.001, rejecting self-intersections at a ray's own origin.
pub const T_MIN: i64 = 66;

/// White, the low end of the sky gradient.
pub open spec fn white_v() -> V3 {
    V3 { x: SCALE as int, y: SCALE as int, z: SCALE as int }
}

/// Sky blue `(0.5, 0.7, 1.0)`, the high end of the sky gradient.
pub open spec fn sky_v() -> V3 {
    V3 { x: 32768, y: 45875, z: 65536 }
}

/// The gradient parameter `0.5 * (unit_direction.y + 1)`.
pub open spec fn bg_t(d: V3) -> int {
    tdiv(v3_unit(d).y + SCALE, 2)
}

/// The background for a direction: white blended toward sky blue as
/// the direction points up.
pub open spec fn bg_of(d: V3) -> V3 {
    v3_sum(v3_scale(white_v(), SCALE - bg_t(d)), v3_scale(sky_v(), bg_t(d)))
}

/// One blended channel `w * t / SCALE` stays within `[0, t]`.
proof fn lemma_blend_channel(w: int, t: int)
    requires
        0 <= w <= 65536,
        0 <= t <= 65536,
    ensures
        0 <= tdiv(w * t, SCALE as int) <= t,
{
    assert(0 <= w * t && w * t <= 65536 * t) by (nonlinear_arith)
        requires
            0 <= w <= 65536,
            0 <= t,
    ;
    lemma_tdiv_mono(w * t, 65536 * t, SCALE as int);
    vstd::arithmetic::div_mod::lemma_div_multiples_vanish(t, 65536);
}

/// Evaluate the sky gradient for a (nonzero) direction.
pub fn background(d: &Vec3) -> (c: Vec3)
    requires
        in_box(d@, 0x800_0000),
        raw_norm2(d@) >= 1,
    ensures
        c@ == bg_of(d@),
        color_ok(c@),
{
    let unit = d.vunit();
    let t: i64 = (unit.y + SCALE) / 2;
    assert(t == bg_t(d@));
    let white = Vec3 { x: SCALE, y: SCALE, z: SCALE };
    let sky = Vec3 { x: 32768, y: 45875, z: 65536 };
    let c = white.vscale(SCALE - t).vadd(sky.vscale(t));
    proof {
        lemma_blend_channel(white_v().x, SCALE - bg_t(d@));
        lemma_blend_channel(white_v().y, SCALE - bg_t(d@));
        lemma_blend_channel(white_v().z, SCALE - bg_t(d@));
        lemma_blend_channel(sky_v().x, bg_t(d@));
        lemma_blend_channel(sky_v().y, bg_t(d@));
        lemma_blend_channel(sky_v().z, bg_t(d@));
    }
    c
}

/// The recursive estimator as a function of its inputs: intersect
/// the nearest member, scatter, recurse with one less bounce, or
/// return black (budget exhausted or ray absorbed) or the sky
/// gradient (escaped).  The second component is the generator state
/// left behind.
pub open spec fn ray_color_spec(o: V3, d: V3, objs: Seq<Sphere>, depth: int, state: u64) -> (
    V3,
    u64,
)
    decreases depth,
{
    if depth <= 0 {
        (v3_zero(), state)
    } else {
        match list_hit(objs, o, d, T_MIN as int, i64::MAX as int) {
            None => (bg_of(d), state),
            Some(h) => {
                let sc = scatter_spec(h.3, d, h.1, h.2, state);
                match sc.0 {
                    None => (v3_zero(), sc.1),
                    Some(a) => {
                        let deeper = ray_color_spec(a.1, a.2, objs, depth - 1, sc.1);
                        (v3_cmul(a.0, deeper.0), deeper.1)
                    },
                }
            },
        }
    }
}

/// A ray whose nearest hit is metal, with the reflected direction
/// not leaving the surface, is absorbed: the integrator returns
/// black and consumes no randomness.
pub proof fn lemma_metal_absorbed_black(o: V3, d: V3, objs: Seq<Sphere>, depth: int, state: u64)
    requires
        depth >= 1,
        match list_hit(objs, o, d, T_MIN as int, i64::MAX as int) {
            Some(h) => (h.3 matches Material::Metal { .. }) && sdot(
                v3_reflect(v3_unit(d), h.2),
                h.2,
            ) <= 0,
            None => false,
        },
    ensures
        ray_color_spec(o, d, objs, depth, state) == (v3_zero(), state),
{
}

/// One bounce decomposes: when the nearest hit scatters, the color
/// is the attenuation times the color of the scattered ray with
/// exactly one less unit of depth, and the generator state threads
/// through the scatter and the recursion in order.
pub proof fn lemma_bounce_decomposition(o: V3, d: V3, objs: Seq<Sphere>, depth: int, state: u64)
    requires
        depth >= 1,
    ensures
        match list_hit(objs, o, d, T_MIN as int, i64::MAX as int) {
            Some(h) => {
                let sc = scatter_spec(h.3, d, h.1, h.2, state);
                match sc.0 {
                    Some(a) => {
                        let deeper = ray_color_spec(a.1, a.2, objs, depth - 1, sc.1);
                        ray_color_spec(o, d, objs, depth, state) == (v3_cmul(a.0, deeper.0), deeper.1)
                    },
                    None => ray_color_spec(o, d, objs, depth, state) == (v3_zero(), sc.1),
                }
            },
            None => ray_color_spec(o, d, objs, depth, state) == (bg_of(d), state),
        },
{
}

/// The color carried back along a ray: black once the depth budget
/// is exhausted; otherwise the nearest surface scatters and the
/// bounce is attenuated, an absorbed ray is black, and a ray that
/// escapes every object returns the sky gradient.  Every channel of
/// the result stays in `[0, 1]`, and the result and final generator
/// state are exactly `ray_color_spec` of the inputs — the integrator
/// is deterministic in the seed.
pub fn ray_color(ray: &Ray, world: &Hitable, depth: u32, rng: &mut Rng) -> (c: Vec3)
    requires
        ray_wf(*ray),
        hitable_wf(*world),
    ensures
        color_ok(c@),
        (c@, final(rng).state) == ray_color_spec(
            ray.origin@,
            ray.direction@,
            obj_seq(*world),
            depth as int,
            old(rng).state,
        ),
        depth == 0 ==> c@ == v3_zero(),
        depth > 0 && all_miss(obj_seq(*world), ray.origin@, ray.direction@, T_MIN as int, i64::MAX as int)
            ==> c@ == bg_of(ray.direction@),
    decreases depth,
{
    if depth == 0 {
        return Vec3 { x: 0, y: 0, z: 0 };
    }
    let hit = world.hit(ray, T_MIN, i64::MAX);
    match hit {
        Some(rec) => {
            let scattered = rec.material.scatter(ray, &rec, rng);
            match scattered {
                Some(sr) => {
                    let bounce = ray_color(&sr.scattered, world, depth - 1, rng);
                    proof {
                        lemma_cmul_color(sr.attenuation@, bounce@);
                    }
                    sr.attenuation.vcmul(bounce)
                },
                None => Vec3 { x: 0, y: 0, z: 0 },
            }
        },
        None => background(&ray.direction),
    }
}

} // verus!
