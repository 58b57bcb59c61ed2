//! Linear RGB colors and their conversion to and from display bytes.
use vstd::prelude::*;
use crate::fixed::{add_fixed, mul_fixed, add_spec, mul_spec, SCALE};

verus! {

/// A linear-space color; each channel is a fixed-point value, nominally in
/// `[0, SCALE]` but unclamped while light is being summed.
#[derive(Clone, Copy, Debug, PartialEq, Eq, Structural)]
pub struct Color {
    pub red: i64,
    pub green: i64,
    pub blue: i64,
}

/// Display bytes (red, green, blue, alpha).
pub type Rgba = (u8, u8, u8, u8);

pub open spec fn rgb(r: int, g: int, b: int) -> Color {
    Color { red: r as i64, green: g as i64, blue: b as i64 }
}

pub open spec fn black() -> Color {
    Color { red: 0, green: 0, blue: 0 }
}

pub open spec fn color_add_spec(a: Color, b: Color) -> Color {
    rgb(
        add_spec(a.red as int, b.red as int),
        add_spec(a.green as int, b.green as int),
        add_spec(a.blue as int, b.blue as int),
    )
}

/// Component-wise product (tinting).
pub open spec fn color_mul_spec(a: Color, b: Color) -> Color {
    rgb(
        mul_spec(a.red as int, b.red as int),
        mul_spec(a.green as int, b.green as int),
        mul_spec(a.blue as int, b.blue as int),
    )
}

pub open spec fn color_scale_spec(a: Color, k: int) -> Color {
    rgb(mul_spec(a.red as int, k), mul_spec(a.green as int, k), mul_spec(a.blue as int, k))
}

pub open spec fn clamp_unit(c: int) -> int {
    if c > SCALE {
        SCALE as int
    } else if c < 0 {
        0
    } else {
        c
    }
}

pub open spec fn color_clamp_spec(a: Color) -> Color {
    rgb(clamp_unit(a.red as int), clamp_unit(a.green as int), clamp_unit(a.blue as int))
}

/// Each channel lies in `[0, SCALE]`.
pub open spec fn in_unit_range(a: Color) -> bool {
    0 <= a.red <= SCALE && 0 <= a.green <= SCALE && 0 <= a.blue <= SCALE
}

/// The gamma exponent is 1.5: a display level is `255 * c^(2/3)` for a
/// linear channel `c` in `[0, 1]`, rounded to the nearest integer.
/// With `c = raw / SCALE`, level `k` is at or below the rounded value when
/// `(2k - 1)^3 <= 8 * 255^3 * c^2`.
pub open spec fn level_reached(raw: int, k: int) -> bool {
    k == 0 || (2 * k - 1) * (2 * k - 1) * (2 * k - 1) * (SCALE * SCALE) <= 8 * (255 * 255 * 255) * (
    raw * raw)
}

pub open spec fn is_gamma_level(raw: int, k: int) -> bool {
    &&& 0 <= k <= 255
    &&& level_reached(raw, k)
    &&& (k == 255 || !level_reached(raw, k + 1))
}

/// Display level of a linear channel in `[0, SCALE]`: `round(255 * c^(1 / 1.5))`.
pub open spec fn gamma_level(raw: int) -> int {
    choose|k: int| is_gamma_level(raw, k)
}

/// Linear channel of a display byte: `byte / 255`, no gamma decoding.
pub open spec fn channel_of_byte(b: int) -> int {
    b * SCALE / 255
}

pub open spec fn to_rgba_spec(c: Color) -> Rgba {
    (
        gamma_level(clamp_unit(c.red as int)) as u8,
        gamma_level(clamp_unit(c.green as int)) as u8,
        gamma_level(clamp_unit(c.blue as int)) as u8,
        255u8,
    )
}

pub open spec fn from_rgba_spec(p: Rgba) -> Color {
    rgb(channel_of_byte(p.0 as int), channel_of_byte(p.1 as int), channel_of_byte(p.2 as int))
}

proof fn lemma_cube_monotone(a: int, b: int)
    requires
        0 <= a <= b,
    ensures
        a * a * a <= b * b * b,
{
    assert(a * a * a <= b * b * b) by (nonlinear_arith)
        requires
            0 <= a <= b,
    ;
}

/// At most one level rounds a given channel.
pub proof fn lemma_gamma_level(raw: int, k: int)
    requires
        is_gamma_level(raw, k),
    ensures
        gamma_level(raw) == k,
{
    let j = gamma_level(raw);
    assert(is_gamma_level(raw, j));
    if j < k {
        lemma_cube_monotone(2 * j + 1, 2 * k - 1);
        assert((2 * j + 1) * (2 * j + 1) * (2 * j + 1) * (SCALE * SCALE) <= (2 * k - 1) * (2 * k - 1) * (
        2 * k - 1) * (SCALE * SCALE)) by (nonlinear_arith)
            requires
                (2 * j + 1) * (2 * j + 1) * (2 * j + 1) <= (2 * k - 1) * (2 * k - 1) * (2 * k - 1),
        ;
    } else if k < j {
        lemma_cube_monotone(2 * k + 1, 2 * j - 1);
        assert((2 * k + 1) * (2 * k + 1) * (2 * k + 1) * (SCALE * SCALE) <= (2 * j - 1) * (2 * j - 1) * (
        2 * j - 1) * (SCALE * SCALE)) by (nonlinear_arith)
            requires
                (2 * k + 1) * (2 * k + 1) * (2 * k + 1) <= (2 * j - 1) * (2 * j - 1) * (2 * j - 1),
        ;
    }
}

fn reaches(raw: i64, k: u32) -> (r: bool)
    requires
        0 <= raw <= SCALE,
        k <= 255,
    ensures
        r == level_reached(raw as int, k as int),
{
    if k == 0 {
        return true;
    }
    let a = (2 * k - 1) as u128;
    let c = raw as u128;
    assert(a * a <= 511 * 511 && a * a * a <= 511 * 511 * 511) by (nonlinear_arith)
        requires
            a <= 511,
    ;
    assert(c * c <= 1_000_000 * 1_000_000) by (nonlinear_arith)
        requires
            c <= 1_000_000,
    ;
    let a3 = a * a * a;
    let c2 = c * c;
    assert(a3 * 1_000_000_000_000 <= 511 * 511 * 511 * 1_000_000_000_000) by (nonlinear_arith)
        requires
            a3 <= 511 * 511 * 511,
    ;
    assert(8 * (255 * 255 * 255) * c2 <= 8 * (255 * 255 * 255) * 1_000_000_000_000) by (nonlinear_arith)
        requires
            c2 <= 1_000_000_000_000,
    ;
    a3 * 1_000_000_000_000 <= 8 * (255 * 255 * 255) * c2
}

/// Rounds `255 * c^(2/3)` for a linear channel `c` given in `[0, SCALE]`.
pub fn encode_gamma(raw: i64) -> (r: u8)
    requires
        0 <= raw <= SCALE,
    ensures
        r == gamma_level(raw as int),
{
    let mut lo: u32 = 0;
    let mut hi: u32 = 256;
    while hi - lo > 1
        invariant
            0 <= lo < hi <= 256,
            0 <= raw <= SCALE,
            level_reached(raw as int, lo as int),
            hi == 256 || !level_reached(raw as int, hi as int),
        decreases hi - lo,
    {
        let mid = lo + (hi - lo) / 2;
        if reaches(raw, mid) {
            lo = mid;
        } else {
            hi = mid;
        }
    }
    proof {
        lemma_gamma_level(raw as int, lo as int);
    }
    lo as u8
}

impl Color {
    pub fn black() -> (r: Color)
        ensures
            r == black(),
    {
        Color { red: 0, green: 0, blue: 0 }
    }

    pub fn add(&self, other: &Color) -> (r: Color)
        ensures
            r == color_add_spec(*self, *other),
    {
        Color {
            red: add_fixed(self.red, other.red),
            green: add_fixed(self.green, other.green),
            blue: add_fixed(self.blue, other.blue),
        }
    }

    /// Component-wise product.
    pub fn mul(&self, other: &Color) -> (r: Color)
        ensures
            r == color_mul_spec(*self, *other),
    {
        Color {
            red: mul_fixed(self.red, other.red),
            green: mul_fixed(self.green, other.green),
            blue: mul_fixed(self.blue, other.blue),
        }
    }

    /// Product with a fixed-point scalar.
    pub fn scale(&self, k: i64) -> (r: Color)
        ensures
            r == color_scale_spec(*self, k as int),
    {
        Color {
            red: mul_fixed(self.red, k),
            green: mul_fixed(self.green, k),
            blue: mul_fixed(self.blue, k),
        }
    }

    pub fn clamp(&self) -> (r: Color)
        ensures
            r == color_clamp_spec(*self),
            in_unit_range(r),
    {
        Color {
            red: clamp_channel(self.red),
            green: clamp_channel(self.green),
            blue: clamp_channel(self.blue),
        }
    }

    /// Display bytes: each channel clamped to `[0, 1]`, gamma encoded and
    /// scaled to `0..=255`; alpha is opaque.
    pub fn to_rgba(&self) -> (r: Rgba)
        ensures
            r == to_rgba_spec(*self),
    {
        (
            encode_gamma(clamp_channel(self.red)),
            encode_gamma(clamp_channel(self.green)),
            encode_gamma(clamp_channel(self.blue)),
            255,
        )
    }

    /// Linear color of display bytes; alpha is ignored.
    pub fn from_rgba(rgba: Rgba) -> (r: Color)
        ensures
            r == from_rgba_spec(rgba),
            in_unit_range(r),
    {
        Color {
            red: byte_channel(rgba.0),
            green: byte_channel(rgba.1),
            blue: byte_channel(rgba.2),
        }
    }
}

fn clamp_channel(c: i64) -> (r: i64)
    ensures
        r == clamp_unit(c as int),
{
    if c > SCALE {
        SCALE
    } else if c < 0 {
        0
    } else {
        c
    }
}

fn byte_channel(b: u8) -> (r: i64)
    ensures
        r == channel_of_byte(b as int),
        0 <= r <= SCALE,
{
    proof {
        let p = (b as int) * (SCALE as int);
        assert(0 <= p <= 255 * SCALE) by (nonlinear_arith)
            requires
                b <= 255,
                p == (b as int) * (SCALE as int),
        ;
        vstd::arithmetic::div_mod::lemma_div_is_ordered(p, 255 * SCALE, 255);
        vstd::arithmetic::div_mod::lemma_div_pos_is_pos(p, 255);
    }
    (b as i64 * SCALE) / 255
}

/// Display bytes survive decoding and encoding again, within one level, for
/// the bytes on which the two conversions agree so closely: zero and the
/// bright end from 251 up. Decoding applies no inverse gamma, so any other
/// byte comes back brighter by more than one level.
pub proof fn lemma_display_round_trip(b: u8)
    requires
        b == 0 || b >= 251,
    ensures
        gamma_level(clamp_unit(channel_of_byte(b as int))) - 1 <= b <= gamma_level(
            clamp_unit(channel_of_byte(b as int)),
        ) + 1,
{
    if b == 0 {
        assert(channel_of_byte(0) == 0);
        assert(!level_reached(0, 1)) by (nonlinear_arith);
        lemma_gamma_level(0, 0);
    } else if b == 251 {
        assert(channel_of_byte(251) == 984313);
        assert((2 * 252 - 1) * (2 * 252 - 1) * (2 * 252 - 1) * (SCALE * SCALE) <= 8 * (255 * 255 * 255) * (984313 * 984313)
            < (2 * 252 + 1) * (2 * 252 + 1) * (2 * 252 + 1) * (SCALE * SCALE)) by (nonlinear_arith);
        lemma_level_between(984313, 252);
    } else if b == 252 {
        assert(channel_of_byte(252) == 988235);
        assert((2 * 253 - 1) * (2 * 253 - 1) * (2 * 253 - 1) * (SCALE * SCALE) <= 8 * (255 * 255 * 255) * (988235 * 988235)
            < (2 * 253 + 1) * (2 * 253 + 1) * (2 * 253 + 1) * (SCALE * SCALE)) by (nonlinear_arith);
        lemma_level_between(988235, 253);
    } else if b == 253 {
        assert(channel_of_byte(253) == 992156);
        assert((2 * 254 - 1) * (2 * 254 - 1) * (2 * 254 - 1) * (SCALE * SCALE) <= 8 * (255 * 255 * 255) * (992156 * 992156)
            < (2 * 254 + 1) * (2 * 254 + 1) * (2 * 254 + 1) * (SCALE * SCALE)) by (nonlinear_arith);
        lemma_level_between(992156, 254);
    } else if b == 254 {
        assert(channel_of_byte(254) == 996078);
        assert((2 * 254 - 1) * (2 * 254 - 1) * (2 * 254 - 1) * (SCALE * SCALE) <= 8 * (255 * 255 * 255) * (996078 * 996078)
            < (2 * 254 + 1) * (2 * 254 + 1) * (2 * 254 + 1) * (SCALE * SCALE)) by (nonlinear_arith);
        lemma_level_between(996078, 254);
    } else {
        assert(channel_of_byte(255) == 1000000);
        assert(509 * 509 * 509 * (SCALE * SCALE) <= 8 * (255 * 255 * 255) * (1000000 * 1000000)) by (nonlinear_arith);
        lemma_level_top(1000000);
    }
}

proof fn lemma_level_between(raw: int, k: int)
    requires
        1 <= k <= 254,
        (2 * k - 1) * (2 * k - 1) * (2 * k - 1) * (SCALE * SCALE) <= 8 * (255 * 255 * 255) * (raw * raw),
        8 * (255 * 255 * 255) * (raw * raw) < (2 * k + 1) * (2 * k + 1) * (2 * k + 1) * (SCALE * SCALE),
    ensures
        0 <= raw <= SCALE ==> gamma_level(clamp_unit(raw)) == k,
{
    assert(is_gamma_level(raw, k));
    lemma_gamma_level(raw, k);
}

proof fn lemma_level_top(raw: int)
    requires
        509 * 509 * 509 * (SCALE * SCALE) <= 8 * (255 * 255 * 255) * (raw * raw),
    ensures
        0 <= raw <= SCALE ==> gamma_level(clamp_unit(raw)) == 255,
{
    assert(is_gamma_level(raw, 255));
    lemma_gamma_level(raw, 255);
}

} // verus!
