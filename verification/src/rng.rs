//! An explicitly threaded pseudo-random generator (xorshift) and the
//! random offset vector used by diffuse scattering.
//!
//! The generator is deterministic in its seed, so renders can be
//! reproduced; each concurrent sampling context gets its own instance.

use vstd::prelude::*;
use crate::fixed::{SCALE, lemma_mul_bound, lemma_int_sqrt_unique};
use crate::vec3::{Vec3, V3, in_box, raw_norm2, v3_unit, unit_ish};

verus! {

/// The xorshift step.
pub open spec fn next_of(s: u64) -> u64 {
    let a = s ^ (s << 13);
    let b = a ^ (a >> 7);
    b ^ (b << 17)
}

/// A 64-bit xorshift generator.  Its state is never zero.
pub struct Rng {
    pub state: u64,
}

impl Rng {
    /// Seed the generator; a zero seed is replaced so the xorshift
    /// state never sticks at zero.
    pub fn new(seed: u64) -> (r: Rng)
        ensures
            r.state == if seed == 0 { 0x9E37_79B9_7F4A_7C15u64 } else { seed },
    {
        if seed == 0 {
            Rng { state: 0x9E37_79B9_7F4A_7C15 }
        } else {
            Rng { state: seed }
        }
    }

    /// Advance the state and return it.
    pub fn next(&mut self) -> (r: u64)
        ensures
            final(self).state == next_of(old(self).state),
            r == final(self).state,
    {
        let mut x: u64 = self.state;
        x = x ^ (x << 13);
        x = x ^ (x >> 7);
        x = x ^ (x << 17);
        self.state = x;
        x
    }

    /// A sample in `[-SCALE, SCALE]`, i.e. in `[-1, 1]` of the
    /// represented reals.
    pub fn sample_unit(&mut self) -> (r: i64)
        ensures
            final(self).state == next_of(old(self).state),
            r == (final(self).state % 131073) as i64 - 65536,
            -65536 <= r <= 65536,
    {
        let v: u64 = self.next();
        (v % 131073) as i64 - 65536
    }
}

/// The sample drawn by one generator step, in `[-SCALE, SCALE]`.
pub open spec fn unit_sample(s: u64) -> int {
    (next_of(s) % 131073) - 65536
}

/// What the rejection sampler computes from a generator state: draw
/// three coordinates; if they land inside the unit sphere (and are
/// not all zero), normalize them; otherwise try again, up to 32
/// rounds, falling back to a fixed unit vector.  The second
/// component is the generator state left behind.
pub open spec fn ruv_spec(state: u64, tries: int) -> (V3, u64)
    decreases 32 - tries,
{
    if tries < 0 || tries >= 32 {
        (V3 { x: 0, y: SCALE as int, z: 0 }, state)
    } else {
        let s1 = next_of(state);
        let s2 = next_of(s1);
        let s3 = next_of(s2);
        let p = V3 { x: unit_sample(state), y: unit_sample(s1), z: unit_sample(s2) };
        if 1 <= raw_norm2(p) <= (SCALE as int) * (SCALE as int) {
            (v3_unit(p), s3)
        } else {
            ruv_spec(s3, tries + 1)
        }
    }
}

/// A pseudo-random offset direction: a point sampled in the unit cube,
/// rejected until it falls inside the unit sphere, then normalized to
/// raw length `SCALE`.  The result and the state left behind are
/// exactly `ruv_spec` of the starting state; every outcome is the
/// normalization of some nonzero vector.
pub fn rand_unit_vec(rng: &mut Rng) -> (r: Vec3)
    ensures
        in_box(r@, SCALE as int),
        unit_ish(r@),
        (r@, final(rng).state) == ruv_spec(old(rng).state, 0),
{
    let mut tries: usize = 0;
    while tries < 32
        invariant
            0 <= tries <= 32,
            ruv_spec(old(rng).state, 0) == ruv_spec(rng.state, tries as int),
        decreases 32 - tries,
    {
        let ghost s0: u64 = rng.state;
        let x: i64 = rng.sample_unit();
        let y: i64 = rng.sample_unit();
        let z: i64 = rng.sample_unit();
        proof {
            lemma_mul_bound(x as int, x as int, 65536, 65536);
            lemma_mul_bound(y as int, y as int, 65536, 65536);
            lemma_mul_bound(z as int, z as int, 65536, 65536);
        }
        let n2: i64 = x * x + y * y + z * z;
        if 1 <= n2 && n2 <= SCALE * SCALE {
            let v = Vec3 { x, y, z };
            assert(raw_norm2(v@) == n2);
            assert(ruv_spec(s0, tries as int) == (v3_unit(v@), rng.state));
            return v.vunit();
        }
        proof {
            assert(ruv_spec(s0, tries as int) == ruv_spec(rng.state, tries + 1));
        }
        tries = tries + 1;
    }
    proof {
        lemma_int_sqrt_unique((SCALE as int) * (SCALE as int), SCALE as int);
        vstd::arithmetic::div_mod::lemma_div_of0(SCALE as int);
        vstd::arithmetic::div_mod::lemma_div_multiples_vanish(SCALE as int, SCALE as int);
        let up = V3 { x: 0, y: SCALE as int, z: 0 };
        assert(0 * (SCALE as int) == 0) by (nonlinear_arith);
        assert(raw_norm2(up) == (SCALE as int) * (SCALE as int));
        assert(v3_unit(up) == up);
    }
    Vec3 { x: 0, y: SCALE, z: 0 }
}

} // verus!
