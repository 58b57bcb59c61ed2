//! Angles in fixed point, as fractions of a half turn: the raw value
//! `SCALE` stands for an angle of pi.
use vstd::prelude::*;
use crate::fixed::{isqrt, LIMIT, SCALE};
use crate::vector::{lemma_sqrt_floor, sqrt_floor};

verus! {

/// Arctangent of `t / SCALE` for `0 <= t <= SCALE`, divided by pi:
/// `x/4 + x(1 - x)(0.077890 + 0.021104 x)`, within 0.0005 of the exact value.
pub open spec fn atan_unit_spec(t: int) -> int {
    t / 4 + (t * (SCALE - t) * (77890 * SCALE + 21104 * t)) / (SCALE * SCALE * SCALE)
}

/// The angle of the point `(x, y)` from the positive x axis, divided by pi,
/// in `[-SCALE, SCALE]`; the origin has angle zero.
pub open spec fn atan2_spec(y: int, x: int) -> int {
    let ax = if x < 0 { -x } else { x };
    let ay = if y < 0 { -y } else { y };
    if ax == 0 && ay == 0 {
        0
    } else {
        let base = if ay <= ax {
            atan_unit_spec(ay * SCALE / ax)
        } else {
            SCALE / 2 - atan_unit_spec(ax * SCALE / ay)
        };
        let q = if x < 0 { SCALE - base } else { base };
        if y < 0 { -q } else { q }
    }
}

/// Arccosine of `c / SCALE`, divided by pi, for `c` in `[-SCALE, SCALE]`.
pub open spec fn acos_spec(c: int) -> int {
    atan2_spec(sqrt_floor(SCALE * SCALE - c * c), c)
}

fn atan_unit(t: i128) -> (r: i128)
    requires
        0 <= t <= SCALE,
    ensures
        r == atan_unit_spec(t as int),
        0 <= r <= 275000,
{
    assert(0 <= t * (SCALE - t) && 4 * (t * (SCALE - t)) <= SCALE * SCALE) by (nonlinear_arith)
        requires
            0 <= t <= SCALE,
    ;
    let p = t * (SCALE as i128 - t);
    let w = 77890 * (SCALE as i128) + 21104 * t;
    assert(0 <= p * w <= SCALE * SCALE * (25000 * SCALE)) by (nonlinear_arith)
        requires
            0 <= 4 * p <= SCALE * SCALE,
            0 <= w <= 100000 * SCALE,
    ;
    let q = (p * w) / (SCALE as i128 * SCALE as i128 * SCALE as i128);
    proof {
        vstd::arithmetic::div_mod::lemma_div_is_ordered(
            p * w,
            SCALE * SCALE * (25000 * SCALE),
            SCALE * SCALE * SCALE,
        );
        vstd::arithmetic::div_mod::lemma_div_pos_is_pos(p * w, SCALE * SCALE * SCALE);
        assert(SCALE * SCALE * (25000 * SCALE) == (SCALE * SCALE * SCALE) * 25000) by (nonlinear_arith);
        vstd::arithmetic::div_mod::lemma_div_multiples_vanish(25000, SCALE * SCALE * SCALE);
    }
    t / 4 + q
}

/// Angle of `(x, y)` divided by pi; see `atan2_spec`.
pub fn atan2(y: i64, x: i64) -> (r: i64)
    requires
        -LIMIT <= x <= LIMIT,
        -LIMIT <= y <= LIMIT,
    ensures
        r == atan2_spec(y as int, x as int),
        -SCALE <= r <= SCALE,
{
    let ax: i128 = if x < 0 { -(x as i128) } else { x as i128 };
    let ay: i128 = if y < 0 { -(y as i128) } else { y as i128 };
    if ax == 0 && ay == 0 {
        return 0;
    }
    let base = if ay <= ax {
        let t = ay * (SCALE as i128) / ax;
        proof {
            assert(ay * SCALE <= ax * SCALE) by (nonlinear_arith)
                requires
                    0 <= ay <= ax,
            ;
            vstd::arithmetic::div_mod::lemma_div_is_ordered(ay * SCALE, ax * SCALE, ax as int);
            vstd::arithmetic::div_mod::lemma_div_pos_is_pos(ay * SCALE, ax as int);
            assert(ax * SCALE / (ax as int) == SCALE) by (nonlinear_arith)
                requires
                    ax > 0,
            ;
        }
        atan_unit(t)
    } else {
        let t = ax * (SCALE as i128) / ay;
        proof {
            assert(ax * SCALE <= ay * SCALE) by (nonlinear_arith)
                requires
                    0 <= ax <= ay,
            ;
            vstd::arithmetic::div_mod::lemma_div_is_ordered(ax * SCALE, ay * SCALE, ay as int);
            vstd::arithmetic::div_mod::lemma_div_pos_is_pos(ax * SCALE, ay as int);
            assert(ay * SCALE / (ay as int) == SCALE) by (nonlinear_arith)
                requires
                    ay > 0,
            ;
        }
        SCALE as i128 / 2 - atan_unit(t)
    };
    let q = if x < 0 { SCALE as i128 - base } else { base };
    let r = if y < 0 { -q } else { q };
    r as i64
}

/// Arccosine divided by pi; see `acos_spec`.
pub fn acos(c: i64) -> (r: i64)
    requires
        -SCALE <= c <= SCALE,
    ensures
        r == acos_spec(c as int),
        -SCALE <= r <= SCALE,
{
    assert(0 <= SCALE * SCALE - c * c <= SCALE * SCALE) by (nonlinear_arith)
        requires
            -SCALE <= c <= SCALE,
    ;
    let n = (SCALE as i128 * SCALE as i128 - c as i128 * c as i128) as u128;
    let s = isqrt(n);
    proof {
        lemma_sqrt_floor(n as int, s as int);
        if s > SCALE {
            crate::vector::lemma_square_monotone(SCALE as int + 1, s as int);
        }
    }
    atan2(s as i64, c)
}

} // verus!
