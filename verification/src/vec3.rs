//! Three-component vectors over fixed-point coordinates, used
//! interchangeably as points, directions and colors.

use vstd::prelude::*;
use crate::fixed::{
    SCALE, tdiv, int_sqrt, lemma_tdiv_bound, lemma_mul_bound, div_fx, isqrt_u128,
};

verus! {

/// The mathematical (unbounded) value of a vector: one integer per
/// component, each standing for `component / SCALE`.
pub ghost struct V3 {
    pub x: int,
    pub y: int,
    pub z: int,
}

/// A fixed-point vector; a raw component `c` stands for `c / SCALE`.
#[derive(Clone, Copy, PartialEq, Eq, Structural, Debug)]
pub struct Vec3 {
    pub x: i64,
    pub y: i64,
    pub z: i64,
}

impl View for Vec3 {
    type V = V3;

    open spec fn view(&self) -> V3 {
        V3 { x: self.x as int, y: self.y as int, z: self.z as int }
    }
}

/// Every component lies in `[-m, m]`.
pub open spec fn in_box(a: V3, m: int) -> bool {
    &&& -m <= a.x <= m
    &&& -m <= a.y <= m
    &&& -m <= a.z <= m
}

pub open spec fn v3_zero() -> V3 {
    V3 { x: 0, y: 0, z: 0 }
}

pub open spec fn v3_sum(a: V3, b: V3) -> V3 {
    V3 { x: a.x + b.x, y: a.y + b.y, z: a.z + b.z }
}

pub open spec fn v3_diff(a: V3, b: V3) -> V3 {
    V3 { x: a.x - b.x, y: a.y - b.y, z: a.z - b.z }
}

/// Fixed-point scaling by `k / SCALE`.
pub open spec fn v3_scale(a: V3, k: int) -> V3 {
    V3 {
        x: tdiv(a.x * k, SCALE as int),
        y: tdiv(a.y * k, SCALE as int),
        z: tdiv(a.z * k, SCALE as int),
    }
}

/// Component-wise fixed-point product (color attenuation).
pub open spec fn v3_cmul(a: V3, b: V3) -> V3 {
    V3 {
        x: tdiv(a.x * b.x, SCALE as int),
        y: tdiv(a.y * b.y, SCALE as int),
        z: tdiv(a.z * b.z, SCALE as int),
    }
}

/// The unscaled sum of the squared raw components: `SCALE^2` times
/// the squared euclidean length.
pub open spec fn raw_norm2(a: V3) -> int {
    a.x * a.x + a.y * a.y + a.z * a.z
}

/// The unscaled dot product of the raw components (`SCALE^2` times
/// the euclidean dot product of the represented vectors).
pub open spec fn raw_dot(a: V3, b: V3) -> int {
    a.x * b.x + a.y * b.y + a.z * b.z
}

/// A color with every channel in `[0, 1]`: raw components in
/// `[0, SCALE]`.
pub open spec fn color_ok(c: V3) -> bool {
    &&& 0 <= c.x <= SCALE
    &&& 0 <= c.y <= SCALE
    &&& 0 <= c.z <= SCALE
}

/// The fixed-point dot product.
pub open spec fn sdot(a: V3, b: V3) -> int {
    tdiv(a.x * b.x + a.y * b.y + a.z * b.z, SCALE as int)
}

/// The fixed-point cross product.
pub open spec fn v3_cross(a: V3, b: V3) -> V3 {
    V3 {
        x: tdiv(a.y * b.z - a.z * b.y, SCALE as int),
        y: tdiv(a.z * b.x - a.x * b.z, SCALE as int),
        z: tdiv(a.x * b.y - a.y * b.x, SCALE as int),
    }
}

/// The raw length: `int_sqrt` of the unscaled squared norm, which is
/// `SCALE` times the euclidean length of the represented vector.
pub open spec fn raw_len(a: V3) -> int {
    int_sqrt(raw_norm2(a))
}

/// The normalized vector: each component scaled to a length-`SCALE`
/// (unit) direction by truncating division.
pub open spec fn v3_unit(a: V3) -> V3 {
    V3 {
        x: tdiv(a.x * SCALE, raw_len(a)),
        y: tdiv(a.y * SCALE, raw_len(a)),
        z: tdiv(a.z * SCALE, raw_len(a)),
    }
}

/// A unit direction up to rounding: the normalization of some
/// nonzero vector.
pub open spec fn unit_ish(u: V3) -> bool {
    exists|v: V3| raw_norm2(v) >= 1 && u == #[trigger] v3_unit(v)
}

/// Mirror reflection about a surface normal:
/// `v - 2 * dot(v, n) * n`, in fixed point.
pub open spec fn v3_reflect(a: V3, n: V3) -> V3 {
    V3 {
        x: a.x - tdiv(2 * sdot(a, n) * n.x, SCALE as int),
        y: a.y - tdiv(2 * sdot(a, n) * n.y, SCALE as int),
        z: a.z - tdiv(2 * sdot(a, n) * n.z, SCALE as int),
    }
}

/// The fixed-point dot product of vectors in boxes `ba`, `bb` lies in
/// `[-m, m]` whenever `3 * ba * bb <= m * SCALE`.
pub proof fn lemma_sdot_bound(a: V3, b: V3, ba: int, bb: int, m: int)
    requires
        in_box(a, ba),
        in_box(b, bb),
        0 <= m,
        3 * (ba * bb) <= m * (SCALE as int),
    ensures
        -m <= sdot(a, b) <= m,
{
    lemma_mul_bound(a.x, b.x, ba, bb);
    lemma_mul_bound(a.y, b.y, ba, bb);
    lemma_mul_bound(a.z, b.z, ba, bb);
    lemma_tdiv_bound(a.x * b.x + a.y * b.y + a.z * b.z, SCALE as int, m);
}

impl Vec3 {
    pub fn new(x: i64, y: i64, z: i64) -> (r: Vec3)
        ensures
            r@ == (V3 { x: x as int, y: y as int, z: z as int }),
    {
        Vec3 { x, y, z }
    }

    pub fn zero() -> (r: Vec3)
        ensures
            r@ == v3_zero(),
    {
        Vec3 { x: 0, y: 0, z: 0 }
    }

    /// Component-wise sum.
    pub fn vadd(self, o: Vec3) -> (r: Vec3)
        requires
            in_box(self@, 0x2000_0000_0000_0000),
            in_box(o@, 0x2000_0000_0000_0000),
        ensures
            r@ == v3_sum(self@, o@),
    {
        Vec3 { x: self.x + o.x, y: self.y + o.y, z: self.z + o.z }
    }

    /// Component-wise difference.
    pub fn vsub(self, o: Vec3) -> (r: Vec3)
        requires
            in_box(self@, 0x2000_0000_0000_0000),
            in_box(o@, 0x2000_0000_0000_0000),
        ensures
            r@ == v3_diff(self@, o@),
    {
        Vec3 { x: self.x - o.x, y: self.y - o.y, z: self.z - o.z }
    }

    /// Fixed-point scaling by the scalar `k` (representing `k / SCALE`).
    pub fn vscale(self, k: i64) -> (r: Vec3)
        requires
            in_box(self@, 0x40_0000_0000),
            -0x40_0000_0000 <= k <= 0x40_0000_0000,
        ensures
            r@ == v3_scale(self@, k as int),
    {
        proof {
            lemma_mul_bound(self@.x, k as int, 0x40_0000_0000, 0x40_0000_0000);
            lemma_mul_bound(self@.y, k as int, 0x40_0000_0000, 0x40_0000_0000);
            lemma_mul_bound(self@.z, k as int, 0x40_0000_0000, 0x40_0000_0000);
            lemma_tdiv_bound(self@.x * k, SCALE as int, 0x4000_0000_0000_0000);
            lemma_tdiv_bound(self@.y * k, SCALE as int, 0x4000_0000_0000_0000);
            lemma_tdiv_bound(self@.z * k, SCALE as int, 0x4000_0000_0000_0000);
        }
        let x: i64 = div_fx((self.x as i128) * (k as i128), SCALE as i128) as i64;
        let y: i64 = div_fx((self.y as i128) * (k as i128), SCALE as i128) as i64;
        let z: i64 = div_fx((self.z as i128) * (k as i128), SCALE as i128) as i64;
        Vec3 { x, y, z }
    }

    /// Component-wise fixed-point product.
    pub fn vcmul(self, o: Vec3) -> (r: Vec3)
        requires
            in_box(self@, 0x40_0000_0000),
            in_box(o@, 0x40_0000_0000),
        ensures
            r@ == v3_cmul(self@, o@),
    {
        proof {
            lemma_mul_bound(self@.x, o@.x, 0x40_0000_0000, 0x40_0000_0000);
            lemma_mul_bound(self@.y, o@.y, 0x40_0000_0000, 0x40_0000_0000);
            lemma_mul_bound(self@.z, o@.z, 0x40_0000_0000, 0x40_0000_0000);
            lemma_tdiv_bound(self@.x * o@.x, SCALE as int, 0x4000_0000_0000_0000);
            lemma_tdiv_bound(self@.y * o@.y, SCALE as int, 0x4000_0000_0000_0000);
            lemma_tdiv_bound(self@.z * o@.z, SCALE as int, 0x4000_0000_0000_0000);
        }
        let x: i64 = div_fx((self.x as i128) * (o.x as i128), SCALE as i128) as i64;
        let y: i64 = div_fx((self.y as i128) * (o.y as i128), SCALE as i128) as i64;
        let z: i64 = div_fx((self.z as i128) * (o.z as i128), SCALE as i128) as i64;
        Vec3 { x, y, z }
    }

    /// Fixed-point dot product.
    pub fn vdot(self, o: Vec3) -> (r: i64)
        requires
            in_box(self@, 0x4000_0000),
            in_box(o@, 0x4000_0000),
        ensures
            r == sdot(self@, o@),
    {
        proof {
            lemma_mul_bound(self@.x, o@.x, 0x4000_0000, 0x4000_0000);
            lemma_mul_bound(self@.y, o@.y, 0x4000_0000, 0x4000_0000);
            lemma_mul_bound(self@.z, o@.z, 0x4000_0000, 0x4000_0000);
            lemma_tdiv_bound(
                self@.x * o@.x + self@.y * o@.y + self@.z * o@.z,
                SCALE as int,
                3int * 0x4000_0000 * 0x4000_0000,
            );
        }
        let s: i128 = (self.x as i128) * (o.x as i128) + (self.y as i128) * (o.y as i128)
            + (self.z as i128) * (o.z as i128);
        div_fx(s, SCALE as i128) as i64
    }

    /// Fixed-point cross product.
    pub fn vcross(self, o: Vec3) -> (r: Vec3)
        requires
            in_box(self@, 0x4000_0000),
            in_box(o@, 0x4000_0000),
        ensures
            r@ == v3_cross(self@, o@),
    {
        proof {
            lemma_mul_bound(self@.y, o@.z, 0x4000_0000, 0x4000_0000);
            lemma_mul_bound(self@.z, o@.y, 0x4000_0000, 0x4000_0000);
            lemma_mul_bound(self@.z, o@.x, 0x4000_0000, 0x4000_0000);
            lemma_mul_bound(self@.x, o@.z, 0x4000_0000, 0x4000_0000);
            lemma_mul_bound(self@.x, o@.y, 0x4000_0000, 0x4000_0000);
            lemma_mul_bound(self@.y, o@.x, 0x4000_0000, 0x4000_0000);
            lemma_tdiv_bound(self@.y * o@.z - self@.z * o@.y, SCALE as int, 2int * 0x4000_0000 * 0x4000_0000);
            lemma_tdiv_bound(self@.z * o@.x - self@.x * o@.z, SCALE as int, 2int * 0x4000_0000 * 0x4000_0000);
            lemma_tdiv_bound(self@.x * o@.y - self@.y * o@.x, SCALE as int, 2int * 0x4000_0000 * 0x4000_0000);
        }
        let x: i64 = div_fx(
            (self.y as i128) * (o.z as i128) - (self.z as i128) * (o.y as i128),
            SCALE as i128,
        ) as i64;
        let y: i64 = div_fx(
            (self.z as i128) * (o.x as i128) - (self.x as i128) * (o.z as i128),
            SCALE as i128,
        ) as i64;
        let z: i64 = div_fx(
            (self.x as i128) * (o.y as i128) - (self.y as i128) * (o.x as i128),
            SCALE as i128,
        ) as i64;
        Vec3 { x, y, z }
    }

    /// The raw (scaled) euclidean length.
    pub fn vlen(self) -> (r: i64)
        requires
            in_box(self@, 0x4000_0000),
        ensures
            r == raw_len(self@),
            0 <= r <= 0x8000_0000,
    {
        proof {
            lemma_mul_bound(self@.x, self@.x, 0x4000_0000, 0x4000_0000);
            lemma_mul_bound(self@.y, self@.y, 0x4000_0000, 0x4000_0000);
            lemma_mul_bound(self@.z, self@.z, 0x4000_0000, 0x4000_0000);
            assert(self@.x * self@.x >= 0) by (nonlinear_arith);
            assert(self@.y * self@.y >= 0) by (nonlinear_arith);
            assert(self@.z * self@.z >= 0) by (nonlinear_arith);
        }
        let n: u128 = ((self.x as i128) * (self.x as i128) + (self.y as i128) * (self.y as i128)
            + (self.z as i128) * (self.z as i128)) as u128;
        let r: u128 = isqrt_u128(n);
        proof {
            assert(0x8000_0000 * 0x8000_0000 > 3 * (0x4000_0000 * 0x4000_0000));
            if r > 0x8000_0000 {
                assert((r as int) * (r as int) > 0x8000_0000 * 0x8000_0000) by (nonlinear_arith)
                    requires
                        r > 0x8000_0000,
                ;
            }
        }
        r as i64
    }

    /// Normalize to a unit direction (raw length `SCALE`), rounding
    /// each component toward zero.  Every result component lies in
    /// `[-SCALE, SCALE]`.
    pub fn vunit(self) -> (r: Vec3)
        requires
            in_box(self@, 0x4000_0000),
            raw_norm2(self@) >= 1,
        ensures
            r@ == v3_unit(self@),
            in_box(r@, SCALE as int),
    {
        let len: i64 = self.vlen();
        proof {
            lemma_component_le_sqrt(self@);
            lemma_mul_bound(self@.x, SCALE as int, raw_len(self@), SCALE as int);
            lemma_mul_bound(self@.y, SCALE as int, raw_len(self@), SCALE as int);
            lemma_mul_bound(self@.z, SCALE as int, raw_len(self@), SCALE as int);
            lemma_tdiv_bound(self@.x * SCALE, raw_len(self@), SCALE as int);
            lemma_tdiv_bound(self@.y * SCALE, raw_len(self@), SCALE as int);
            lemma_tdiv_bound(self@.z * SCALE, raw_len(self@), SCALE as int);
        }
        let x: i64 = div_fx((self.x as i128) * (SCALE as i128), len as i128) as i64;
        let y: i64 = div_fx((self.y as i128) * (SCALE as i128), len as i128) as i64;
        let z: i64 = div_fx((self.z as i128) * (SCALE as i128), len as i128) as i64;
        Vec3 { x, y, z }
    }

    /// Mirror reflection about the normal `n`.
    pub fn vreflect(self, n: Vec3) -> (r: Vec3)
        requires
            in_box(self@, 0x4000_0000),
            in_box(n@, 0x4000_0000),
        ensures
            r@ == v3_reflect(self@, n@),
    {
        let d: i64 = self.vdot(n);
        proof {
            lemma_sdot_bound(self@, n@, 0x4000_0000, 0x4000_0000, 3int * 0x4000_0000 * 0x4000);
            lemma_mul_bound(2 * sdot(self@, n@), n@.x, 2int * 3 * 0x4000_0000 * 0x4000, 0x4000_0000);
            lemma_mul_bound(2 * sdot(self@, n@), n@.y, 2int * 3 * 0x4000_0000 * 0x4000, 0x4000_0000);
            lemma_mul_bound(2 * sdot(self@, n@), n@.z, 2int * 3 * 0x4000_0000 * 0x4000, 0x4000_0000);
            lemma_tdiv_bound(2 * sdot(self@, n@) * n@.x, SCALE as int, 0x3000_0000_0000_0000);
            lemma_tdiv_bound(2 * sdot(self@, n@) * n@.y, SCALE as int, 0x3000_0000_0000_0000);
            lemma_tdiv_bound(2 * sdot(self@, n@) * n@.z, SCALE as int, 0x3000_0000_0000_0000);
        }
        let x: i64 = self.x - div_fx(2 * (d as i128) * (n.x as i128), SCALE as i128) as i64;
        let y: i64 = self.y - div_fx(2 * (d as i128) * (n.y as i128), SCALE as i128) as i64;
        let z: i64 = self.z - div_fx(2 * (d as i128) * (n.z as i128), SCALE as i128) as i64;
        Vec3 { x, y, z }
    }
}

/// A vector with some nonzero component has squared norm at least 1.
pub proof fn lemma_nonzero_norm2(a: V3)
    requires
        !(a.x == 0 && a.y == 0 && a.z == 0),
    ensures
        raw_norm2(a) >= 1,
{
    assert(a.x * a.x >= 0 && a.y * a.y >= 0 && a.z * a.z >= 0) by (nonlinear_arith);
    if a.x != 0 {
        assert(a.x * a.x >= 1) by (nonlinear_arith)
            requires
                a.x != 0,
        ;
    } else if a.y != 0 {
        assert(a.y * a.y >= 1) by (nonlinear_arith)
            requires
                a.y != 0,
        ;
    } else {
        assert(a.z * a.z >= 1) by (nonlinear_arith)
            requires
                a.z != 0,
        ;
    }
}

/// Attenuating one in-range color by another keeps every channel in
/// `[0, 1]`.
pub proof fn lemma_cmul_color(a: V3, b: V3)
    requires
        color_ok(a),
        color_ok(b),
    ensures
        color_ok(v3_cmul(a, b)),
{
    lemma_cmul_channel(a.x, b.x);
    lemma_cmul_channel(a.y, b.y);
    lemma_cmul_channel(a.z, b.z);
}

proof fn lemma_cmul_channel(x: int, y: int)
    requires
        0 <= x <= SCALE,
        0 <= y <= SCALE,
    ensures
        0 <= tdiv(x * y, SCALE as int) <= SCALE,
{
    lemma_mul_bound(x, y, SCALE as int, SCALE as int);
    assert(x * y >= 0) by (nonlinear_arith)
        requires
            0 <= x,
            0 <= y,
    ;
    crate::fixed::lemma_tdiv_mono(x * y, (SCALE as int) * (SCALE as int), SCALE as int);
    vstd::arithmetic::div_mod::lemma_div_multiples_vanish(SCALE as int, SCALE as int);
}

/// No component of a vector exceeds the integer square root of its
/// squared norm.
pub proof fn lemma_component_le_sqrt(a: V3)
    ensures
        in_box(a, int_sqrt(raw_norm2(a))),
        int_sqrt(raw_norm2(a)) >= 0,
        raw_norm2(a) >= 1 ==> int_sqrt(raw_norm2(a)) >= 1,
{
    let n: int = raw_norm2(a);
    let l: int = int_sqrt(n);
    assert(a.x * a.x + a.y * a.y + a.z * a.z >= 0) by (nonlinear_arith);
    lemma_sqrt_exists(n);
    assert(0 <= l && l * l <= n && n < (l + 1) * (l + 1));
    assert(-l <= a.x <= l && -l <= a.y <= l && -l <= a.z <= l) by (nonlinear_arith)
        requires
            0 <= l,
            l * l <= n,
            n < (l + 1) * (l + 1),
            n == a.x * a.x + a.y * a.y + a.z * a.z,
    ;
    if n >= 1 {
        assert(l >= 1) by (nonlinear_arith)
            requires
                0 <= l,
                n < (l + 1) * (l + 1),
                n >= 1,
        ;
    }
}

/// For every `n >= 0` some `r` satisfies the square-root window, so
/// `int_sqrt(n)` satisfies it as well.
pub proof fn lemma_sqrt_exists(n: int)
    requires
        n >= 0,
    ensures
        0 <= int_sqrt(n) && int_sqrt(n) * int_sqrt(n) <= n && n < (int_sqrt(n) + 1) * (int_sqrt(n)
            + 1),
    decreases n,
{
    if n == 0 {
        assert(0 <= 0 && #[trigger] (0 * 0) <= 0 && 0 < (0 + 1) * (0 + 1)) by (nonlinear_arith);
    } else {
        lemma_sqrt_exists(n - 1);
        let p: int = int_sqrt(n - 1);
        if (p + 1) * (p + 1) <= n {
            assert(n < (p + 2) * (p + 2)) by (nonlinear_arith)
                requires
                    0 <= p,
                    n - 1 < (p + 1) * (p + 1),
            ;
            assert(0 <= p + 1 && #[trigger] ((p + 1) * (p + 1)) <= n && n < ((p + 1) + 1) * ((p + 1)
                + 1));
        } else {
            assert(0 <= p && #[trigger] (p * p) <= n && n < (p + 1) * (p + 1));
        }
    }
}

} // verus!
