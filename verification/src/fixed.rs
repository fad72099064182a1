//! Fixed-point scalar arithmetic: truncating division and integer
//! square root, with exact specifications.

use vstd::prelude::*;
use vstd::arithmetic::div_mod::{
    lemma_fundamental_div_mod, lemma_mod_division_less_than_divisor, lemma_div_pos_is_pos,
};

verus! {

/// Fixed-point scale: a raw value `v` stands for the real number `v / SCALE`.
pub const SCALE: i64 = 65536;

/// Truncating division (rounding toward zero) for a positive divisor:
/// the semantics of Rust's `/` on signed integers.
pub open spec fn tdiv(a: int, b: int) -> int {
    if a >= 0 {
        a / b
    } else {
        -((-a) / b)
    }
}

/// Truncating division never leaves `[-m, m]` when the numerator is
/// within `[-m*b, m*b]`.
pub proof fn lemma_tdiv_bound(a: int, b: int, m: int)
    requires
        b >= 1,
        0 <= m,
        -m * b <= a <= m * b,
    ensures
        -m <= tdiv(a, b) <= m,
{
    let n: int = if a >= 0 { a } else { -a };
    let q: int = n / b;
    let r: int = n % b;
    lemma_div_pos_is_pos(n, b);
    lemma_fundamental_div_mod(n, b);
    lemma_mod_division_less_than_divisor(n, b);
    assert(q <= m) by (nonlinear_arith)
        requires
            n == b * q + r,
            0 <= r,
            n == if a >= 0 { a } else { -a },
            -m * b <= a <= m * b,
            1 <= b,
            0 <= q,
            0 <= m,
    ;
}

/// Truncating division by `b >= 1` never grows the magnitude.
pub proof fn lemma_tdiv_shrinks(a: int, b: int)
    requires
        b >= 1,
    ensures
        if a >= 0 {
            0 <= tdiv(a, b) <= a
        } else {
            a <= tdiv(a, b) <= 0
        },
{
    let m: int = if a >= 0 { a } else { -a };
    assert(-m * b <= a <= m * b) by (nonlinear_arith)
        requires
            1 <= b,
            m == if a >= 0 { a } else { -a },
    ;
    lemma_tdiv_bound(a, b, m);
}

/// A product of bounded factors is bounded by the product of the bounds.
pub proof fn lemma_mul_bound(x: int, y: int, bx: int, by: int)
    requires
        -bx <= x <= bx,
        -by <= y <= by,
    ensures
        -(bx * by) <= x * y <= bx * by,
{
    assert(-(bx * by) <= x * y <= bx * by) by (nonlinear_arith)
        requires
            -bx <= x <= bx,
            -by <= y <= by,
    ;
}

/// Truncating division by a positive divisor is monotone on
/// nonnegative numerators.
pub proof fn lemma_tdiv_mono(a1: int, a2: int, b: int)
    requires
        0 <= a1 <= a2,
        1 <= b,
    ensures
        0 <= tdiv(a1, b) <= tdiv(a2, b),
{
    lemma_div_pos_is_pos(a1, b);
    vstd::arithmetic::div_mod::lemma_div_is_ordered(a1, a2, b);
}

/// The integer square root: the unique `r >= 0` with
/// `r * r <= n < (r + 1) * (r + 1)`.
pub open spec fn int_sqrt(n: int) -> int {
    choose|r: int| 0 <= r && #[trigger] (r * r) <= n && n < (r + 1) * (r + 1)
}

/// Any `r >= 0` with `r * r <= n < (r + 1) * (r + 1)` is `int_sqrt(n)`.
pub proof fn lemma_int_sqrt_unique(n: int, r: int)
    requires
        0 <= r,
        r * r <= n,
        n < (r + 1) * (r + 1),
    ensures
        int_sqrt(n) == r,
{
    assert(0 <= r && r * r <= n && n < (r + 1) * (r + 1));
    let c: int = int_sqrt(n);
    assert(0 <= c && c * c <= n && n < (c + 1) * (c + 1));
    if c < r {
        assert((c + 1) * (c + 1) <= r * r) by (nonlinear_arith)
            requires
                0 <= c,
                c < r,
        ;
    }
    if r < c {
        assert((r + 1) * (r + 1) <= c * c) by (nonlinear_arith)
            requires
                0 <= r,
                r < c,
        ;
    }
}

/// The integer square root by binary search.
pub fn isqrt_u128(n: u128) -> (r: u128)
    ensures
        r == int_sqrt(n as int),
        r * r <= n,
        n < (r + 1) * (r + 1),
{
    let mut lo: u128 = 0;
    let mut hi: u128 = 0xFFFF_FFFF_FFFF_FFFF;
    if n < hi {
        hi = n;
    }
    proof {
        assert(n < (hi + 1) * (hi + 1)) by (nonlinear_arith)
            requires
                hi == if n < 0xFFFF_FFFF_FFFF_FFFFu128 { n as int } else { 0xFFFF_FFFF_FFFF_FFFF },
                0 <= n <= 0xFFFF_FFFF_FFFF_FFFF_FFFF_FFFF_FFFF_FFFFu128,
        ;
    }
    while lo < hi
        invariant
            0 <= lo <= hi <= 0xFFFF_FFFF_FFFF_FFFF,
            lo * lo <= n,
            n < (hi + 1) * (hi + 1),
        decreases hi - lo,
    {
        let mid: u128 = lo + (hi - lo + 1) / 2;
        assert(lo < mid <= hi);
        assert(mid * mid <= 0xFFFF_FFFF_FFFF_FFFE_0000_0000_0000_0001) by (nonlinear_arith)
            requires
                0 <= mid <= 0xFFFF_FFFF_FFFF_FFFFu128,
        ;
        if mid * mid <= n {
            lo = mid;
        } else {
            hi = mid - 1;
        }
    }
    proof {
        lemma_int_sqrt_unique(n as int, lo as int);
    }
    lo
}

/// Exact truncating division on 128-bit integers.
pub fn div_fx(a: i128, b: i128) -> (q: i128)
    requires
        1 <= b,
    ensures
        q == tdiv(a as int, b as int),
{
    proof {
        lemma_tdiv_shrinks(a as int, b as int);
    }
    a / b
}

} // verus!
