//! Fixed-point real numbers.
//!
//! Every real quantity of the renderer (coordinates, distances, color
//! channels, intensities) is an `i64` counting millionths: the raw value
//! `SCALE` stands for one. Results saturate at `LIMIT` in magnitude, so every
//! operation is total and no intermediate value can overflow.
use vstd::prelude::*;

verus! {

/// Raw value of the real number one.
pub const SCALE: i64 = 1_000_000;

/// Largest magnitude of a raw result (ten million units); larger results
/// saturate to it.
pub const LIMIT: i64 = 10_000_000_000_000;

/// Saturation of an exact result to the representable range.
pub open spec fn fit(x: int) -> int {
    if x > LIMIT {
        LIMIT as int
    } else if x < -LIMIT {
        -LIMIT
    } else {
        x
    }
}

/// Integer division that rounds toward zero, as Rust's `/` does.
pub open spec fn div_trunc(a: int, d: int) -> int {
    if a >= 0 {
        a / d
    } else {
        -((-a) / d)
    }
}

pub open spec fn add_spec(a: int, b: int) -> int {
    fit(a + b)
}

pub open spec fn sub_spec(a: int, b: int) -> int {
    fit(a - b)
}

/// Product of two fixed-point values.
pub open spec fn mul_spec(a: int, b: int) -> int {
    fit(div_trunc(a * b, SCALE as int))
}

/// Quotient of two fixed-point values, for a positive divisor.
pub open spec fn div_spec(a: int, b: int) -> int {
    fit(div_trunc(a * SCALE, b))
}

/// `r` is the integer square root of `n`.
pub open spec fn is_isqrt(n: int, r: int) -> bool {
    0 <= r && r * r <= n < (r + 1) * (r + 1)
}

pub fn saturate(x: i128) -> (r: i64)
    ensures
        r == fit(x as int),
        -LIMIT <= r <= LIMIT,
{
    if x > LIMIT as i128 {
        LIMIT
    } else if x < -(LIMIT as i128) {
        -LIMIT
    } else {
        x as i64
    }
}

pub fn div_toward_zero(a: i128, d: i128) -> (r: i128)
    requires
        d > 0,
        a > i128::MIN,
    ensures
        r == div_trunc(a as int, d as int),
{
    if a >= 0 {
        ((a as u128) / (d as u128)) as i128
    } else {
        let q = ((-a) as u128) / (d as u128);
        proof {
            vstd::arithmetic::div_mod::lemma_div_is_ordered_by_denominator((-a) as int, 1, d as int);
            vstd::arithmetic::div_mod::lemma_div_basics((-a) as int);
        }
        -(q as i128)
    }
}

pub fn add_fixed(a: i64, b: i64) -> (r: i64)
    ensures
        r == add_spec(a as int, b as int),
{
    saturate(a as i128 + b as i128)
}

pub fn sub_fixed(a: i64, b: i64) -> (r: i64)
    ensures
        r == sub_spec(a as int, b as int),
{
    saturate(a as i128 - b as i128)
}

proof fn lemma_product_fits(a: i64, b: i64)
    ensures
        -0x4000_0000_0000_0000_0000_0000_0000_0000 <= (a as int) * (b as int)
            <= 0x4000_0000_0000_0000_0000_0000_0000_0000,
{
    assert(-0x4000_0000_0000_0000_0000_0000_0000_0000 <= (a as int) * (b as int)
        <= 0x4000_0000_0000_0000_0000_0000_0000_0000) by (nonlinear_arith)
        requires
            -0x8000_0000_0000_0000 <= a <= 0x7fff_ffff_ffff_ffff,
            -0x8000_0000_0000_0000 <= b <= 0x7fff_ffff_ffff_ffff,
    ;
}

pub fn mul_fixed(a: i64, b: i64) -> (r: i64)
    ensures
        r == mul_spec(a as int, b as int),
{
    proof {
        lemma_product_fits(a, b);
    }
    let p = (a as i128) * (b as i128);
    saturate(div_toward_zero(p, SCALE as i128))
}

pub fn div_fixed(a: i64, b: i64) -> (r: i64)
    requires
        b > 0,
    ensures
        r == div_spec(a as int, b as int),
{
    proof {
        lemma_product_fits(a, SCALE);
    }
    let p = (a as i128) * (SCALE as i128);
    saturate(div_toward_zero(p, b as i128))
}

/// Integer square root by bisection.
pub fn isqrt(n: u128) -> (r: u128)
    ensures
        is_isqrt(n as int, r as int),
        r < 0x1_0000_0000_0000_0000,
{
    let mut lo: u128 = 0;
    let mut hi: u128 = if n < 0x1_0000_0000 {
        0x1_0000
    } else if n < 0x1_0000_0000_0000_0000 {
        0x1_0000_0000
    } else if n < 0x1_0000_0000_0000_0000_0000_0000 {
        0x1_0000_0000_0000
    } else {
        0x1_0000_0000_0000_0000
    };
    assert(0x1_0000 * 0x1_0000 == 0x1_0000_0000);
    assert(0x1_0000_0000 * 0x1_0000_0000 == 0x1_0000_0000_0000_0000);
    assert(0x1_0000_0000_0000 * 0x1_0000_0000_0000 == 0x1_0000_0000_0000_0000_0000_0000);
    assert(n < 0x1_0000_0000_0000_0000 * 0x1_0000_0000_0000_0000);
    while hi - lo > 1
        invariant
            lo < hi <= 0x1_0000_0000_0000_0000,
            lo * lo <= n,
            n < hi * hi,
        decreases hi - lo,
    {
        let mid = lo + (hi - lo) / 2;
        assert(mid * mid <= 0xffff_ffff_ffff_ffff * 0xffff_ffff_ffff_ffff) by (nonlinear_arith)
            requires
                mid < 0x1_0000_0000_0000_0000,
        ;
        if mid * mid <= n {
            lo = mid;
        } else {
            hi = mid;
        }
    }
    assert(hi == lo + 1);
    lo
}

} // verus!
