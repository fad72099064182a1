//! Rays: an origin plus a direction, evaluated parametrically.

use vstd::prelude::*;
use crate::fixed::{SCALE, tdiv, lemma_mul_bound, lemma_tdiv_bound, div_fx};
use crate::vec3::{Vec3, V3, in_box, raw_norm2};

verus! {

/// A half-line: `origin + t * direction`, `t` in fixed point.
#[derive(Clone, Copy, PartialEq, Eq, Structural, Debug)]
pub struct Ray {
    pub origin: Vec3,
    pub direction: Vec3,
}

/// The point reached at parameter `t` (fixed point, truncating).
pub open spec fn point_at(o: V3, d: V3, t: int) -> V3 {
    V3 {
        x: o.x + tdiv(t * d.x, SCALE as int),
        y: o.y + tdiv(t * d.y, SCALE as int),
        z: o.z + tdiv(t * d.z, SCALE as int),
    }
}

/// A ray the geometry accepts: origin and direction within the world
/// box, direction not the zero vector.
pub open spec fn ray_wf(r: Ray) -> bool {
    &&& in_box(r.origin@, 0x1000_0000)
    &&& in_box(r.direction@, 0x800_0000)
    &&& raw_norm2(r.direction@) >= 1
}

impl Ray {
    pub fn new(origin: Vec3, direction: Vec3) -> (r: Ray)
        ensures
            r.origin == origin,
            r.direction == direction,
    {
        Ray { origin, direction }
    }

    /// Evaluate `origin + t * direction`.
    pub fn at(&self, t: i64) -> (r: Vec3)
        requires
            in_box(self.origin@, 0x1000_0000),
            in_box(self.direction@, 0x800_0000),
            -0x1_0000_0000_0000 <= t <= 0x1_0000_0000_0000,
        ensures
            r@ == point_at(self.origin@, self.direction@, t as int),
    {
        proof {
            lemma_mul_bound(t as int, self.direction@.x, 0x1_0000_0000_0000, 0x800_0000);
            lemma_mul_bound(t as int, self.direction@.y, 0x1_0000_0000_0000, 0x800_0000);
            lemma_mul_bound(t as int, self.direction@.z, 0x1_0000_0000_0000, 0x800_0000);
            lemma_tdiv_bound(t * self.direction@.x, SCALE as int, 0x800_0000_0000_0000);
            lemma_tdiv_bound(t * self.direction@.y, SCALE as int, 0x800_0000_0000_0000);
            lemma_tdiv_bound(t * self.direction@.z, SCALE as int, 0x800_0000_0000_0000);
        }
        let x: i64 = self.origin.x + div_fx((t as i128) * (self.direction.x as i128), SCALE as i128) as i64;
        let y: i64 = self.origin.y + div_fx((t as i128) * (self.direction.y as i128), SCALE as i128) as i64;
        let z: i64 = self.origin.z + div_fx((t as i128) * (self.direction.z as i128), SCALE as i128) as i64;
        Vec3 { x, y, z }
    }
}

} // verus!
