//! A fixed camera: eye point plus image plane, turning normalized
//! viewport coordinates into world-space rays.

use vstd::prelude::*;
use crate::fixed::{SCALE, tdiv, lemma_mul_bound, lemma_tdiv_bound};
use crate::vec3::{Vec3, V3, in_box, raw_norm2, v3_sum, v3_diff, v3_scale, v3_zero, lemma_nonzero_norm2};
use crate::ray::{Ray, ray_wf};

verus! {

/// Eye origin, lower-left corner of the image plane, and the two
/// span vectors of the viewport; fixed at construction.
#[derive(Clone, Copy, PartialEq, Eq, Structural, Debug)]
pub struct Camera {
    pub origin: Vec3,
    pub lower_left: Vec3,
    pub horizontal: Vec3,
    pub vertical: Vec3,
}

/// A usable camera: spans lie in the image plane (no depth
/// component) and the plane sits strictly in front of the eye, so
/// every generated ray direction is nonzero.
pub open spec fn cam_wf(c: Camera) -> bool {
    &&& in_box(c.origin@, 0x400_0000)
    &&& in_box(c.lower_left@, 0x40_0000)
    &&& in_box(c.horizontal@, 0x40_0000)
    &&& in_box(c.vertical@, 0x40_0000)
    &&& c.horizontal@.z == 0
    &&& c.vertical@.z == 0
    &&& c.lower_left@.z - c.origin@.z <= -1
}

/// The direction from the eye through viewport coordinates `(u, v)`:
/// `lower_left + u * horizontal + v * vertical - origin`.
pub open spec fn cam_dir(c: Camera, u: int, v: int) -> V3 {
    v3_diff(
        v3_sum(v3_sum(c.lower_left@, v3_scale(c.horizontal@, u)), v3_scale(c.vertical@, v)),
        c.origin@,
    )
}

impl Camera {
    /// The default configuration: a 16:9 viewport of height 2 at
    /// focal distance 1, eye at the world origin.
    pub fn new() -> (c: Camera)
        ensures
            cam_wf(c),
            c.origin@ == v3_zero(),
            c.horizontal@ == (V3 { x: 233016, y: 0, z: 0 }),
            c.vertical@ == (V3 { x: 0, y: 131072, z: 0 }),
            c.lower_left@ == (V3 { x: -116508, y: -65536, z: -65536 }),
    {
        Camera {
            origin: Vec3 { x: 0, y: 0, z: 0 },
            lower_left: Vec3 { x: -116508, y: -65536, z: -65536 },
            horizontal: Vec3 { x: 233016, y: 0, z: 0 },
            vertical: Vec3 { x: 0, y: 131072, z: 0 },
        }
    }

    /// The ray from the eye through viewport coordinates `(u, v)`,
    /// each in `[0, SCALE]` across the full viewport.
    pub fn get_ray(&self, u: i64, v: i64) -> (r: Ray)
        requires
            cam_wf(*self),
            0 <= u <= SCALE,
            0 <= v <= SCALE,
        ensures
            r.origin == self.origin,
            r.direction@ == cam_dir(*self, u as int, v as int),
            ray_wf(r),
    {
        proof {
            lemma_mul_bound(self.horizontal@.x, u as int, 0x40_0000, SCALE as int);
            lemma_mul_bound(self.horizontal@.y, u as int, 0x40_0000, SCALE as int);
            lemma_mul_bound(self.horizontal@.z, u as int, 0x40_0000, SCALE as int);
            lemma_mul_bound(self.vertical@.x, v as int, 0x40_0000, SCALE as int);
            lemma_mul_bound(self.vertical@.y, v as int, 0x40_0000, SCALE as int);
            lemma_mul_bound(self.vertical@.z, v as int, 0x40_0000, SCALE as int);
            lemma_tdiv_bound(self.horizontal@.x * u, SCALE as int, 0x40_0000);
            lemma_tdiv_bound(self.horizontal@.y * u, SCALE as int, 0x40_0000);
            lemma_tdiv_bound(self.horizontal@.z * u, SCALE as int, 0x40_0000);
            lemma_tdiv_bound(self.vertical@.x * v, SCALE as int, 0x40_0000);
            lemma_tdiv_bound(self.vertical@.y * v, SCALE as int, 0x40_0000);
            lemma_tdiv_bound(self.vertical@.z * v, SCALE as int, 0x40_0000);
        }
        let hu = self.horizontal.vscale(u);
        let vv = self.vertical.vscale(v);
        let dir = self.lower_left.vadd(hu).vadd(vv).vsub(self.origin);
        proof {
            assert(self.horizontal@.z * u == 0 && self.vertical@.z * v == 0)
                by (nonlinear_arith)
                requires
                    self.horizontal@.z == 0,
                    self.vertical@.z == 0,
            ;
            vstd::arithmetic::div_mod::lemma_div_of0(SCALE as int);
            assert(dir@.z <= -1);
            lemma_nonzero_norm2(dir@);
        }
        Ray { origin: self.origin, direction: dir }
    }
}

} // verus!
