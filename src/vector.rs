//! Directions and positions in camera space.
use vstd::prelude::*;
use crate::fixed::{
    add_fixed, div_toward_zero, fit, div_trunc, isqrt, is_isqrt, saturate, sub_fixed, mul_fixed,
    add_spec, sub_spec, mul_spec, LIMIT, SCALE,
};

verus! {

/// A direction or an offset, in fixed-point components.
#[derive(Clone, Copy, Debug, PartialEq, Eq, Structural)]
pub struct Vector3 {
    pub x: i64,
    pub y: i64,
    pub z: i64,
}

/// A position in camera space, in fixed-point components.
#[derive(Clone, Copy, Debug, PartialEq, Eq, Structural)]
pub struct Point {
    pub x: i64,
    pub y: i64,
    pub z: i64,
}

/// The floor of the square root of a non-negative integer.
pub open spec fn sqrt_floor(n: int) -> int {
    choose|r: int| is_isqrt(n, r)
}

pub proof fn lemma_square_monotone(a: int, b: int)
    requires
        0 <= a <= b,
    ensures
        a * a <= b * b,
{
    assert(a * a <= b * b) by (nonlinear_arith)
        requires
            0 <= a <= b,
    ;
}

/// The integer square root is unique.
pub proof fn lemma_sqrt_floor(n: int, r: int)
    requires
        is_isqrt(n, r),
    ensures
        sqrt_floor(n) == r,
{
    let s = sqrt_floor(n);
    assert(is_isqrt(n, s));
    if s < r {
        lemma_square_monotone(s + 1, r);
    } else if r < s {
        lemma_square_monotone(r + 1, s);
    }
}

/// Every non-negative integer has an integer square root.
pub proof fn lemma_sqrt_floor_is_isqrt(n: int)
    requires
        n >= 0,
    ensures
        is_isqrt(n, sqrt_floor(n)),
    decreases n,
{
    if n == 0 {
        assert(is_isqrt(0, 0));
    } else {
        lemma_sqrt_floor_is_isqrt(n - 1);
        let r = sqrt_floor(n - 1);
        if n < (r + 1) * (r + 1) {
            assert(is_isqrt(n, r));
        } else {
            assert(is_isqrt(n, r + 1)) by (nonlinear_arith)
                requires
                    0 <= r,
                    n - 1 < (r + 1) * (r + 1),
                    n >= (r + 1) * (r + 1),
            ;
        }
    }
}

/// Product of two fixed-point values, each term rounded on its own so that
/// any pair of `i64` values can be multiplied.
pub open spec fn term(a: int, b: int) -> int {
    div_trunc(a * b, SCALE as int)
}

pub open spec fn vec3(x: int, y: int, z: int) -> Vector3 {
    Vector3 { x: x as i64, y: y as i64, z: z as i64 }
}

pub open spec fn dot_spec(a: Vector3, b: Vector3) -> int {
    fit(term(a.x as int, b.x as int) + term(a.y as int, b.y as int) + term(a.z as int, b.z as int))
}

pub open spec fn cross_spec(a: Vector3, b: Vector3) -> Vector3 {
    vec3(
        fit(term(a.y as int, b.z as int) - term(a.z as int, b.y as int)),
        fit(term(a.z as int, b.x as int) - term(a.x as int, b.z as int)),
        fit(term(a.x as int, b.y as int) - term(a.y as int, b.x as int)),
    )
}

pub open spec fn vadd_spec(a: Vector3, b: Vector3) -> Vector3 {
    vec3(add_spec(a.x as int, b.x as int), add_spec(a.y as int, b.y as int), add_spec(a.z as int, b.z as int))
}

pub open spec fn vsub_spec(a: Vector3, b: Vector3) -> Vector3 {
    vec3(sub_spec(a.x as int, b.x as int), sub_spec(a.y as int, b.y as int), sub_spec(a.z as int, b.z as int))
}

pub open spec fn neg_spec(a: Vector3) -> Vector3 {
    vec3(fit(-a.x), fit(-a.y), fit(-a.z))
}

pub open spec fn scale_spec(a: Vector3, k: int) -> Vector3 {
    vec3(mul_spec(a.x as int, k), mul_spec(a.y as int, k), mul_spec(a.z as int, k))
}

/// Sum of the squares of the components, each taken within range.
pub open spec fn square_sum(a: Vector3) -> int {
    fit(a.x as int) * fit(a.x as int) + fit(a.y as int) * fit(a.y as int) + fit(a.z as int) * fit(
        a.z as int,
    )
}

/// Euclidean length, rounded down.
pub open spec fn length_spec(a: Vector3) -> int {
    fit(sqrt_floor(square_sum(a)))
}

/// The unit vector along `a`, or none for a vector of length zero.
pub open spec fn normalize_spec(a: Vector3) -> Option<Vector3> {
    let l = length_spec(a);
    if l == 0 {
        None
    } else {
        Some(
            vec3(
                fit(div_trunc(fit(a.x as int) * SCALE, l)),
                fit(div_trunc(fit(a.y as int) * SCALE, l)),
                fit(div_trunc(fit(a.z as int) * SCALE, l)),
            ),
        )
    }
}

pub open spec fn point_offset_spec(p: Point, v: Vector3) -> Point {
    Point {
        x: add_spec(p.x as int, v.x as int) as i64,
        y: add_spec(p.y as int, v.y as int) as i64,
        z: add_spec(p.z as int, v.z as int) as i64,
    }
}

pub open spec fn point_sub_spec(p: Point, q: Point) -> Vector3 {
    vec3(sub_spec(p.x as int, q.x as int), sub_spec(p.y as int, q.y as int), sub_spec(p.z as int, q.z as int))
}

proof fn lemma_term_bound(a: i64, b: i64)
    ensures
        -0x4000_0000_0000_0000_0000_0000_0000_0000 <= (a as int) * (b as int)
            <= 0x4000_0000_0000_0000_0000_0000_0000_0000,
        -0x1000_0000_0000_0000_0000_0000_0000 <= term(a as int, b as int)
            <= 0x1000_0000_0000_0000_0000_0000_0000,
{
    let p = (a as int) * (b as int);
    assert(-0x4000_0000_0000_0000_0000_0000_0000_0000 <= p <= 0x4000_0000_0000_0000_0000_0000_0000_0000)
        by (nonlinear_arith)
        requires
            -0x8000_0000_0000_0000 <= a <= 0x7fff_ffff_ffff_ffff,
            -0x8000_0000_0000_0000 <= b <= 0x7fff_ffff_ffff_ffff,
            p == (a as int) * (b as int),
    ;
    if p >= 0 {
        vstd::arithmetic::div_mod::lemma_div_is_ordered(p, 0x4000_0000_0000_0000_0000_0000_0000_0000, SCALE as int);
    } else {
        vstd::arithmetic::div_mod::lemma_div_is_ordered(-p, 0x4000_0000_0000_0000_0000_0000_0000_0000, SCALE as int);
    }
    vstd::arithmetic::div_mod::lemma_div_pos_is_pos(if p >= 0 { p } else { -p }, SCALE as int);
}

fn term_exec(a: i64, b: i64) -> (r: i128)
    ensures
        r == term(a as int, b as int),
        -0x1000_0000_0000_0000_0000_0000_0000 <= r <= 0x1000_0000_0000_0000_0000_0000_0000,
{
    proof {
        lemma_term_bound(a, b);
    }
    div_toward_zero((a as i128) * (b as i128), SCALE as i128)
}

impl Vector3 {
    pub fn zero() -> (r: Vector3)
        ensures
            r == (Vector3 { x: 0, y: 0, z: 0 }),
    {
        Vector3 { x: 0, y: 0, z: 0 }
    }

    pub fn dot(&self, other: &Vector3) -> (r: i64)
        ensures
            r == dot_spec(*self, *other),
    {
        let s = term_exec(self.x, other.x) + term_exec(self.y, other.y) + term_exec(self.z, other.z);
        saturate(s)
    }

    pub fn cross(&self, other: &Vector3) -> (r: Vector3)
        ensures
            r == cross_spec(*self, *other),
    {
        Vector3 {
            x: saturate(term_exec(self.y, other.z) - term_exec(self.z, other.y)),
            y: saturate(term_exec(self.z, other.x) - term_exec(self.x, other.z)),
            z: saturate(term_exec(self.x, other.y) - term_exec(self.y, other.x)),
        }
    }

    /// Squared length.
    pub fn norm(&self) -> (r: i64)
        ensures
            r == dot_spec(*self, *self),
    {
        self.dot(self)
    }

    pub fn length(&self) -> (r: i64)
        ensures
            r == length_spec(*self),
            0 <= r <= LIMIT,
    {
        let x = saturate(self.x as i128) as i128;
        let y = saturate(self.y as i128) as i128;
        let z = saturate(self.z as i128) as i128;
        proof {
            assert(x * x <= LIMIT * LIMIT) by (nonlinear_arith)
                requires
                    -LIMIT <= x <= LIMIT,
            ;
            assert(y * y <= LIMIT * LIMIT) by (nonlinear_arith)
                requires
                    -LIMIT <= y <= LIMIT,
            ;
            assert(z * z <= LIMIT * LIMIT) by (nonlinear_arith)
                requires
                    -LIMIT <= z <= LIMIT,
            ;
            assert(0 <= x * x && 0 <= y * y && 0 <= z * z) by (nonlinear_arith);
        }
        let s = (x * x + y * y + z * z) as u128;
        let r = isqrt(s);
        proof {
            lemma_sqrt_floor(s as int, r as int);
        }
        saturate(r as i128)
    }

    pub fn normalize(&self) -> (r: Option<Vector3>)
        ensures
            r == normalize_spec(*self),
    {
        let l = self.length();
        if l == 0 {
            None
        } else {
            let x = saturate(self.x as i128);
            let y = saturate(self.y as i128);
            let z = saturate(self.z as i128);
            proof {
                lemma_term_bound(x, SCALE);
                lemma_term_bound(y, SCALE);
                lemma_term_bound(z, SCALE);
            }
            let nx = saturate(div_toward_zero(x as i128 * SCALE as i128, l as i128));
            let ny = saturate(div_toward_zero(y as i128 * SCALE as i128, l as i128));
            let nz = saturate(div_toward_zero(z as i128 * SCALE as i128, l as i128));
            Some(Vector3 { x: nx, y: ny, z: nz })
        }
    }

    pub fn neg(&self) -> (r: Vector3)
        ensures
            r == neg_spec(*self),
    {
        Vector3 {
            x: saturate(-(self.x as i128)),
            y: saturate(-(self.y as i128)),
            z: saturate(-(self.z as i128)),
        }
    }

    pub fn add(&self, other: &Vector3) -> (r: Vector3)
        ensures
            r == vadd_spec(*self, *other),
    {
        Vector3 {
            x: add_fixed(self.x, other.x),
            y: add_fixed(self.y, other.y),
            z: add_fixed(self.z, other.z),
        }
    }

    pub fn sub(&self, other: &Vector3) -> (r: Vector3)
        ensures
            r == vsub_spec(*self, *other),
    {
        Vector3 {
            x: sub_fixed(self.x, other.x),
            y: sub_fixed(self.y, other.y),
            z: sub_fixed(self.z, other.z),
        }
    }

    /// Multiplication by a fixed-point scalar.
    pub fn scale(&self, k: i64) -> (r: Vector3)
        ensures
            r == scale_spec(*self, k as int),
    {
        Vector3 { x: mul_fixed(self.x, k), y: mul_fixed(self.y, k), z: mul_fixed(self.z, k) }
    }
}

impl Point {
    pub fn zero() -> (r: Point)
        ensures
            r == (Point { x: 0, y: 0, z: 0 }),
    {
        Point { x: 0, y: 0, z: 0 }
    }

    /// The point displaced by `v`.
    pub fn offset(&self, v: &Vector3) -> (r: Point)
        ensures
            r == point_offset_spec(*self, *v),
    {
        Point { x: add_fixed(self.x, v.x), y: add_fixed(self.y, v.y), z: add_fixed(self.z, v.z) }
    }

    /// The vector from `other` to `self`.
    pub fn sub(&self, other: &Point) -> (r: Vector3)
        ensures
            r == point_sub_spec(*self, *other),
    {
        Vector3 {
            x: sub_fixed(self.x, other.x),
            y: sub_fixed(self.y, other.y),
            z: sub_fixed(self.z, other.z),
        }
    }
}

/// Normalizing a vector that already has unit length gives it back unchanged.
pub proof fn lemma_normalize_unit(v: Vector3)
    requires
        (v.x as int) * (v.x as int) + (v.y as int) * (v.y as int) + (v.z as int) * (v.z as int)
            == SCALE * SCALE,
    ensures
        length_spec(v) == SCALE,
        normalize_spec(v) == Some(v),
{
    let (x, y, z) = (v.x as int, v.y as int, v.z as int);
    assert(-SCALE <= x <= SCALE && -SCALE <= y <= SCALE && -SCALE <= z <= SCALE) by (nonlinear_arith)
        requires
            x * x + y * y + z * z == SCALE * SCALE,
    ;
    assert(square_sum(v) == SCALE * SCALE);
    assert(is_isqrt(SCALE * SCALE, SCALE as int)) by (nonlinear_arith);
    lemma_sqrt_floor(SCALE * SCALE, SCALE as int);
    lemma_div_trunc_rescale(x);
    lemma_div_trunc_rescale(y);
    lemma_div_trunc_rescale(z);
}

proof fn lemma_div_trunc_rescale(c: int)
    ensures
        div_trunc(c * SCALE, SCALE as int) == c,
{
    if c >= 0 {
        vstd::arithmetic::div_mod::lemma_div_multiples_vanish(c, SCALE as int);
        assert(c * SCALE == SCALE * c) by (nonlinear_arith);
        assert(c * SCALE >= 0) by (nonlinear_arith)
            requires
                c >= 0,
        ;
    } else {
        vstd::arithmetic::div_mod::lemma_div_multiples_vanish(-c, SCALE as int);
        assert(-(c * SCALE) == SCALE * (-c)) by (nonlinear_arith);
        assert(c * SCALE < 0) by (nonlinear_arith)
            requires
                c < 0,
        ;
    }
}

proof fn lemma_unit_component(c: int, l: int) -> (m: int)
    requires
        l > 0,
        c * c < (l + 1) * (l + 1),
    ensures
        0 <= m <= SCALE,
        div_trunc(c * SCALE, l) == (if c >= 0 { m } else { -m }),
        m * l <= (if c >= 0 { c } else { -c }) * SCALE < (m + 1) * l,
{
    let a = if c >= 0 { c } else { -c };
    assert(a * a == c * c) by (nonlinear_arith)
        requires
            a == c || a == -c,
    ;
    if a > l {
        lemma_square_monotone(l + 1, a);
    }
    assert(0 <= a * SCALE <= l * SCALE) by (nonlinear_arith)
        requires
            0 <= a <= l,
    ;
    let m = (a * SCALE) / l;
    vstd::arithmetic::div_mod::lemma_fundamental_div_mod(a * SCALE, l);
    vstd::arithmetic::div_mod::lemma_mod_bound(a * SCALE, l);
    vstd::arithmetic::div_mod::lemma_div_pos_is_pos(a * SCALE, l);
    assert(m <= SCALE) by (nonlinear_arith)
        requires
            l * m + (a * SCALE) % l == a * SCALE,
            0 <= (a * SCALE) % l,
            a * SCALE <= l * SCALE,
            l > 0,
    ;
    if c < 0 {
        assert(-(c * SCALE) == a * SCALE) by (nonlinear_arith)
            requires
                a == -c,
        ;
        assert(c * SCALE < 0) by (nonlinear_arith)
            requires
                c < 0,
        ;
    } else {
        assert(c * SCALE >= 0) by (nonlinear_arith)
            requires
                c >= 0,
        ;
    }
    assert(m * l <= a * SCALE < (m + 1) * l) by (nonlinear_arith)
        requires
            l * m + (a * SCALE) % l == a * SCALE,
            0 <= (a * SCALE) % l < l,
    ;
    m
}

proof fn lemma_rounded_square(m: int, a: int, l: int)
    requires
        0 <= m,
        0 <= a,
        l > 0,
        m * l <= a * SCALE < (m + 1) * l,
    ensures
        m * m * (l * l) <= a * a * (SCALE * SCALE),
        a * a * (SCALE * SCALE) < (m + 1) * (m + 1) * (l * l),
{
    assert(0 <= m * l) by (nonlinear_arith)
        requires
            0 <= m,
            l > 0,
    ;
    lemma_square_monotone(m * l, a * SCALE);
    assert((a * SCALE) * (a * SCALE) < ((m + 1) * l) * ((m + 1) * l)) by (nonlinear_arith)
        requires
            0 <= a * SCALE < (m + 1) * l,
    ;
    assert((m * l) * (m * l) == m * m * (l * l)) by (nonlinear_arith);
    assert((a * SCALE) * (a * SCALE) == a * a * (SCALE * SCALE)) by (nonlinear_arith);
    assert(((m + 1) * l) * ((m + 1) * l) == (m + 1) * (m + 1) * (l * l)) by (nonlinear_arith);
}

/// A normalized vector has unit length up to rounding: at least one unit
/// less four millionths, and above one unit by less than one part in the
/// length of the vector normalized, whose own length must not saturate.
pub proof fn lemma_normalize_length(v: Vector3)
    requires
        length_spec(v) > 0,
        square_sum(v) < (LIMIT + 1) * (LIMIT + 1),
    ensures
        normalize_spec(v) matches Some(n) && SCALE - 4 <= length_spec(n) && (length_spec(n)
            - SCALE) * length_spec(v) < SCALE,
{
    let (x, y, z) = (fit(v.x as int), fit(v.y as int), fit(v.z as int));
    let sum = square_sum(v);
    assert(sum >= 0 && x * x <= sum && y * y <= sum && z * z <= sum) by (nonlinear_arith)
        requires
            sum == x * x + y * y + z * z,
    ;
    lemma_sqrt_floor_is_isqrt(sum);
    let r = sqrt_floor(sum);
    if r > LIMIT {
        lemma_square_monotone(LIMIT + 1, r);
    }
    let l = length_spec(v);
    assert(l == r);
    let mx = lemma_unit_component(x, l);
    let my = lemma_unit_component(y, l);
    let mz = lemma_unit_component(z, l);
    let n = normalize_spec(v)->Some_0;
    assert(fit(n.x as int) == n.x && n.x * n.x == mx * mx) by (nonlinear_arith)
        requires
            n.x == (if x >= 0 { mx } else { -mx }),
            0 <= mx <= SCALE,
    ;
    assert(fit(n.y as int) == n.y && n.y * n.y == my * my) by (nonlinear_arith)
        requires
            n.y == (if y >= 0 { my } else { -my }),
            0 <= my <= SCALE,
    ;
    assert(fit(n.z as int) == n.z && n.z * n.z == mz * mz) by (nonlinear_arith)
        requires
            n.z == (if z >= 0 { mz } else { -mz }),
            0 <= mz <= SCALE,
    ;
    let ax = if x >= 0 { x } else { -x };
    let ay = if y >= 0 { y } else { -y };
    let az = if z >= 0 { z } else { -z };
    assert(ax * ax + ay * ay + az * az == sum) by (nonlinear_arith)
        requires
            sum == x * x + y * y + z * z,
            ax == x || ax == -x,
            ay == y || ay == -y,
            az == z || az == -z,
    ;
    let sm = mx * mx + my * my + mz * mz;
    assert(square_sum(n) == sm);
    // Rounding each component down keeps the sum of squares below the exact
    // one; rounding each up lifts it above.
    lemma_rounded_square(mx, ax, l);
    lemma_rounded_square(my, ay, l);
    lemma_rounded_square(mz, az, l);
    assert(sm * (l * l) <= sum * (SCALE * SCALE)) by (nonlinear_arith)
        requires
            mx * mx * (l * l) <= ax * ax * (SCALE * SCALE),
            my * my * (l * l) <= ay * ay * (SCALE * SCALE),
            mz * mz * (l * l) <= az * az * (SCALE * SCALE),
            ax * ax + ay * ay + az * az == sum,
            sm == mx * mx + my * my + mz * mz,
    ;
    let up = (mx + 1) * (mx + 1) + (my + 1) * (my + 1) + (mz + 1) * (mz + 1);
    assert(up * (l * l) > sum * (SCALE * SCALE)) by (nonlinear_arith)
        requires
            ax * ax * (SCALE * SCALE) < (mx + 1) * (mx + 1) * (l * l),
            ay * ay * (SCALE * SCALE) < (my + 1) * (my + 1) * (l * l),
            az * az * (SCALE * SCALE) < (mz + 1) * (mz + 1) * (l * l),
            ax * ax + ay * ay + az * az == sum,
            up == (mx + 1) * (mx + 1) + (my + 1) * (my + 1) + (mz + 1) * (mz + 1),
    ;
    assert(sum * (SCALE * SCALE) >= (l * l) * (SCALE * SCALE)) by (nonlinear_arith)
        requires
            l * l <= sum,
    ;
    assert(up > SCALE * SCALE) by (nonlinear_arith)
        requires
            up * (l * l) > (l * l) * (SCALE * SCALE),
            l > 0,
    ;
    lemma_square_monotone(mx, SCALE as int);
    lemma_square_monotone(my, SCALE as int);
    lemma_square_monotone(mz, SCALE as int);
    lemma_sqrt_floor_is_isqrt(sm);
    let ln = sqrt_floor(sm);
    assert(ln <= 2 * SCALE) by (nonlinear_arith)
        requires
            ln * ln <= sm,
            sm <= 3 * SCALE * SCALE,
            ln >= 0,
    ;
    assert(length_spec(n) == ln);
    assert((ln - SCALE) * l < SCALE) by (nonlinear_arith)
        requires
            ln * ln <= sm,
            sm * (l * l) <= sum * (SCALE * SCALE),
            sum < (l + 1) * (l + 1),
            ln >= 0,
            l > 0,
    ;
    assert(SCALE - 4 <= ln) by (nonlinear_arith)
        requires
            sm < (ln + 1) * (ln + 1),
            (mx + 1) * (mx + 1) + (my + 1) * (my + 1) + (mz + 1) * (mz + 1) > SCALE * SCALE,
            sm == mx * mx + my * my + mz * mz,
            0 <= mx <= SCALE,
            0 <= my <= SCALE,
            0 <= mz <= SCALE,
            ln >= 0,
    ;
}

} // verus!
