//! Scene descriptions in text: one element per line, words separated by
//! ASCII whitespace, numbers written as decimals.
use vstd::prelude::*;
use crate::color::Color;
use crate::fixed::SCALE;
use crate::geometry::{Element, Material, Sphere, surface_type};
use crate::texture::Texture;
use crate::vector::Point;

verus! {

pub open spec fn is_space(b: u8) -> bool {
    b == 32 || (9 <= b && b <= 13)
}

pub open spec fn is_digit(b: u8) -> bool {
    48 <= b && b <= 57
}

/// Length of the word that starts `s`: its bytes up to the first space.
pub open spec fn word_len(s: Seq<u8>) -> nat
    decreases s.len(),
{
    if s.len() == 0 || is_space(s[0]) {
        0
    } else {
        1 + word_len(s.drop_first())
    }
}

/// The words of a line, in order.
pub open spec fn words(s: Seq<u8>) -> Seq<Seq<u8>>
    decreases s.len(),
{
    if s.len() == 0 {
        seq![]
    } else if is_space(s[0]) {
        words(s.drop_first())
    } else {
        let k = word_len(s);
        // A word starts here, so the test holds; it only shows termination.
        if 1 <= k <= s.len() {
            seq![s.take(k as int)] + words(s.skip(k as int))
        } else {
            seq![s]
        }
    }
}

proof fn lemma_word_len_exact(t: Seq<u8>, m: int)
    requires
        0 <= m <= t.len(),
        forall|k: int| 0 <= k < m ==> !is_space(#[trigger] t[k]),
        m == t.len() || is_space(t[m]),
    ensures
        word_len(t) == m,
    decreases m,
{
    if m > 0 {
        let u = t.drop_first();
        assert forall|k: int| 0 <= k < m - 1 implies !is_space(#[trigger] u[k]) by {
            assert(u[k] == t[k + 1]);
        }
        if m - 1 < u.len() {
            assert(u[m - 1] == t[m]);
        }
        lemma_word_len_exact(u, m - 1);
    }
}

/// Splits a line into its words.
pub fn split_words(s: &[u8]) -> (r: Vec<Vec<u8>>)
    ensures
        r@.map_values(|w: Vec<u8>| w@) == words(s@),
{
    let n = s.len();
    let mut out: Vec<Vec<u8>> = Vec::new();
    let mut i: usize = 0;
    proof {
        assert(s@.subrange(0, n as int) =~= s@);
        assert(out@.map_values(|w: Vec<u8>| w@) + words(s@) =~= words(s@));
    }
    while i < n
        invariant
            n == s@.len(),
            i <= n,
            out@.map_values(|w: Vec<u8>| w@) + words(s@.subrange(i as int, n as int)) == words(s@),
        decreases n - i,
    {
        if is_space_byte(s[i]) {
            proof {
                let t = s@.subrange(i as int, n as int);
                assert(t.drop_first() =~= s@.subrange(i + 1, n as int));
            }
            i = i + 1;
        } else {
            let mut word: Vec<u8> = Vec::new();
            let mut j = i;
            while j < n && !is_space_byte(s[j])
                invariant
                    n == s@.len(),
                    i < j <= n || (i == j && j < n && !is_space(s@[j as int])),
                    i <= j,
                    word@ == s@.subrange(i as int, j as int),
                    forall|k: int| i <= k < j ==> !is_space(#[trigger] s@[k]),
                decreases n - j,
            {
                word.push(s[j]);
                j = j + 1;
                proof {
                    assert(word@ =~= s@.subrange(i as int, j as int));
                }
            }
            proof {
                let t = s@.subrange(i as int, n as int);
                let m = j - i;
                assert forall|k: int| 0 <= k < m implies !is_space(#[trigger] t[k]) by {
                    assert(t[k] == s@[i + k]);
                }
                if m < t.len() {
                    assert(t[m] == s@[j as int]);
                }
                lemma_word_len_exact(t, m as int);
                assert(t.take(m as int) =~= word@);
                assert(t.skip(m as int) =~= s@.subrange(j as int, n as int));
                let prev = out@.map_values(|w: Vec<u8>| w@);
                assert(out@.push(word).map_values(|w: Vec<u8>| w@) =~= prev.push(word@));
                assert(prev.push(word@) + words(s@.subrange(j as int, n as int)) =~= prev + (seq![
                    word@,
                ] + words(s@.subrange(j as int, n as int))));
            }
            out.push(word);
            i = j;
        }
    }
    proof {
        assert(s@.subrange(n as int, n as int) =~= Seq::<u8>::empty());
        assert(out@.map_values(|w: Vec<u8>| w@) + Seq::<Seq<u8>>::empty() =~= out@.map_values(
            |w: Vec<u8>| w@,
        ));
    }
    out
}

fn is_space_byte(b: u8) -> (r: bool)
    ensures
        r == is_space(b),
{
    b == 32 || (9 <= b && b <= 13)
}

/// Value of a run of decimal digits.
pub open spec fn digits_value(d: Seq<u8>) -> int
    decreases d.len(),
{
    if d.len() == 0 {
        0
    } else {
        digits_value(d.drop_last()) * 10 + (d.last() - 48)
    }
}

pub open spec fn all_digits(d: Seq<u8>) -> bool {
    forall|i: int| 0 <= i < d.len() ==> is_digit(#[trigger] d[i])
}

/// The first `k` digits after the decimal point, read as an integer;
/// missing digits count as zeros.
pub open spec fn fraction_digits(d: Seq<u8>, k: nat) -> int
    decreases k,
{
    if k == 0 {
        0
    } else {
        fraction_digits(d, (k - 1) as nat) * 10 + (if k - 1 < d.len() {
            d[k - 1] - 48
        } else {
            0
        })
    }
}

/// Index of the first decimal point, or the length when there is none.
pub open spec fn dot_index(s: Seq<u8>) -> nat
    decreases s.len(),
{
    if s.len() == 0 || s[0] == 46 {
        0
    } else {
        1 + dot_index(s.drop_first())
    }
}

/// Largest integer part that a decimal may have.
pub const MAX_WHOLE: u64 = 10_000_000;

/// Fixed-point value of a decimal word: an optional sign, digits, and an
/// optional point followed by digits, with at least one digit in all.
/// Digits beyond the sixth after the point are dropped (truncation toward
/// zero). None for anything else, or for an integer part over `MAX_WHOLE`.
pub open spec fn decimal_spec(w: Seq<u8>) -> Option<int> {
    let signed = w.len() > 0 && (w[0] == 45 || w[0] == 43);
    let body = if signed { w.drop_first() } else { w };
    let p = dot_index(body);
    let whole = body.take(p as int);
    let frac = if p < body.len() { body.skip((p + 1) as int) } else { Seq::<u8>::empty() };
    if all_digits(whole) && all_digits(frac) && whole.len() + frac.len() > 0 && digits_value(whole)
        <= MAX_WHOLE {
        let v = digits_value(whole) * SCALE + fraction_digits(frac, 6);
        Some(if w.len() > 0 && w[0] == 45 { -v } else { v })
    } else {
        None
    }
}

proof fn lemma_digits_grow(d: Seq<u8>, k: int)
    requires
        0 <= k <= d.len(),
        all_digits(d),
    ensures
        0 <= digits_value(d.take(k)) <= digits_value(d),
    decreases d.len() - k,
{
    if k < d.len() {
        lemma_digits_grow(d, k + 1);
        assert(d.take(k + 1).drop_last() =~= d.take(k));
        assert(is_digit(d[k]));
    } else {
        assert(d.take(k) =~= d);
        lemma_digits_nonneg(d);
    }
}

proof fn lemma_digits_nonneg(d: Seq<u8>)
    requires
        all_digits(d),
    ensures
        digits_value(d) >= 0,
    decreases d.len(),
{
    if d.len() > 0 {
        assert(is_digit(d[d.len() - 1]));
        lemma_digits_nonneg(d.drop_last());
    }
}

pub open spec fn ten_pow(k: nat) -> int
    decreases k,
{
    if k == 0 {
        1
    } else {
        10 * ten_pow((k - 1) as nat)
    }
}

proof fn lemma_ten_pow_six(k: nat)
    requires
        k < 6,
    ensures
        ten_pow(k) <= 100_000,
        ten_pow(k + 1) == 10 * ten_pow(k),
        ten_pow(6) == 1_000_000,
{
    reveal_with_fuel(ten_pow, 7);
}

proof fn lemma_dot_index_exact(t: Seq<u8>, m: int)
    requires
        0 <= m <= t.len(),
        forall|k: int| 0 <= k < m ==> #[trigger] t[k] != 46,
        m == t.len() || t[m] == 46,
    ensures
        dot_index(t) == m,
    decreases m,
{
    if m > 0 {
        let u = t.drop_first();
        assert forall|k: int| 0 <= k < m - 1 implies #[trigger] u[k] != 46 by {
            assert(u[k] == t[k + 1]);
        }
        if m - 1 < u.len() {
            assert(u[m - 1] == t[m]);
        }
        lemma_dot_index_exact(u, m - 1);
    }
}

fn find_dot(w: &[u8], start: usize) -> (p: usize)
    requires
        start <= w@.len(),
    ensures
        start <= p <= w@.len(),
        p - start == dot_index(w@.subrange(start as int, w@.len() as int)),
{
    let n = w.len();
    let ghost t = w@.subrange(start as int, n as int);
    let mut p = start;
    while p < n && w[p] != 46
        invariant
            n == w@.len(),
            start <= p <= n,
            t == w@.subrange(start as int, n as int),
            forall|k: int| 0 <= k < p - start ==> #[trigger] t[k] != 46,
        decreases n - p,
    {
        proof {
            assert(t[p - start] == w@[p as int]);
        }
        p = p + 1;
    }
    proof {
        if p < n {
            assert(t[p - start] == w@[p as int]);
        }
        lemma_dot_index_exact(t, p - start);
    }
    p
}

/// Value of the digits `w[from..to]`, none unless all are digits and the
/// value is at most `MAX_WHOLE`.
fn read_whole(w: &[u8], from: usize, to: usize) -> (r: Option<u64>)
    requires
        from <= to <= w@.len(),
    ensures
        r is Some <==> all_digits(w@.subrange(from as int, to as int)) && digits_value(
            w@.subrange(from as int, to as int),
        ) <= MAX_WHOLE,
        r matches Some(v) ==> v == digits_value(w@.subrange(from as int, to as int)) && v <= MAX_WHOLE,
{
    let ghost d = w@.subrange(from as int, to as int);
    let mut i = from;
    let mut v: u64 = 0;
    while i < to
        invariant
            from <= i <= to <= w@.len(),
            d == w@.subrange(from as int, to as int),
            all_digits(d.take(i - from)),
            v == digits_value(d.take(i - from)),
            v <= MAX_WHOLE,
        decreases to - i,
    {
        let c = w[i];
        proof {
            assert(d[i - from] == c);
        }
        if !(48 <= c && c <= 57) {
            proof {
                assert(!is_digit(d[i - from]));
            }
            return None;
        }
        v = v * 10 + (c - 48) as u64;
        proof {
            assert(d.take(i - from + 1).drop_last() =~= d.take(i - from));
            assert forall|k: int| 0 <= k < i - from + 1 implies is_digit(
                #[trigger] d.take(i - from + 1)[k],
            ) by {
                if k < i - from {
                    assert(d.take(i - from + 1)[k] == d.take(i - from)[k]);
                }
            }
        }
        i = i + 1;
        if v > MAX_WHOLE {
            proof {
                if all_digits(d) {
                    lemma_digits_grow(d, i - from);
                }
            }
            return None;
        }
    }
    proof {
        assert(d.take(to - from) =~= d);
    }
    Some(v)
}

/// The first six digits of `w[from..to]`, padded with zeros, read as an
/// integer; none unless all are digits.
fn read_fraction(w: &[u8], from: usize, to: usize) -> (r: Option<i64>)
    requires
        from <= to <= w@.len(),
    ensures
        r is Some <==> all_digits(w@.subrange(from as int, to as int)),
        r matches Some(f) ==> f == fraction_digits(w@.subrange(from as int, to as int), 6) && 0 <= f
            < 1_000_000,
{
    let ghost d = w@.subrange(from as int, to as int);
    let mut j = from;
    let mut f: i64 = 0;
    let mut count: u32 = 0;
    while j < to
        invariant
            from <= j <= to <= w@.len(),
            d == w@.subrange(from as int, to as int),
            all_digits(d.take(j - from)),
            count as int == (if j - from < 6 { j - from } else { 6 }),
            f == fraction_digits(d, count as nat),
            0 <= f < ten_pow(count as nat),
        decreases to - j,
    {
        let c = w[j];
        proof {
            assert(d[j - from] == c);
        }
        if !(48 <= c && c <= 57) {
            proof {
                assert(!is_digit(d[j - from]));
            }
            return None;
        }
        if count < 6 {
            proof {
                lemma_ten_pow_six(count as nat);
            }
            f = f * 10 + (c - 48) as i64;
            count = count + 1;
        }
        proof {
            assert forall|k: int| 0 <= k < j - from + 1 implies is_digit(
                #[trigger] d.take(j - from + 1)[k],
            ) by {
                if k < j - from {
                    assert(d.take(j - from + 1)[k] == d.take(j - from)[k]);
                }
            }
        }
        j = j + 1;
    }
    proof {
        assert(d.take(to - from) =~= d);
    }
    while count < 6
        invariant
            count <= 6,
            count < 6 ==> count >= d.len(),
            f == fraction_digits(d, count as nat),
            0 <= f < ten_pow(count as nat),
        decreases 6 - count,
    {
        proof {
            lemma_ten_pow_six(count as nat);
        }
        f = f * 10;
        count = count + 1;
    }
    proof {
        lemma_ten_pow_six(5);
    }
    Some(f)
}

/// Reads a decimal word as a fixed-point value; see `decimal_spec`.
pub fn parse_decimal(w: &[u8]) -> (r: Option<i64>)
    ensures
        r matches Some(v) ==> decimal_spec(w@) == Some(v as int),
        r is None <==> decimal_spec(w@) is None,
{
    let n = w.len();
    let signed = n > 0 && (w[0] == 45 || w[0] == 43);
    let start: usize = if signed { 1 } else { 0 };
    let p = find_dot(w, start);
    let ghost body = w@.subrange(start as int, n as int);
    proof {
        assert(body =~= (if signed { w@.drop_first() } else { w@ }));
        assert(body.take(p - start) =~= w@.subrange(start as int, p as int));
        if p < n {
            assert(body.skip(p - start + 1) =~= w@.subrange(p + 1, n as int));
        }
    }
    let frac_from = if p < n { p + 1 } else { n };
    proof {
        if p >= n {
            assert(w@.subrange(n as int, n as int) =~= Seq::<u8>::empty());
        }
    }
    let whole = match read_whole(w, start, p) {
        Some(v) => v,
        None => return None,
    };
    let fraction = match read_fraction(w, frac_from, n) {
        Some(f) => f,
        None => return None,
    };
    if p == start && frac_from == n {
        return None;
    }
    let v = whole as i64 * SCALE + fraction;
    if n > 0 && w[0] == 45 {
        Some(-v)
    } else {
        Some(v)
    }
}

/// Why a sphere line cannot be read.
#[derive(Clone, Copy, Debug, PartialEq, Eq, Structural)]
pub enum LineError {
    /// Fewer than seven numbers follow the keyword.
    MissingField,
    /// The word at this position (the keyword is word zero) is not a decimal.
    BadNumber { field: usize },
}

/// The keyword `sphere`.
pub open spec fn sphere_keyword() -> Seq<u8> {
    seq![115u8, 112u8, 104u8, 101u8, 114u8, 101u8]
}

/// Position of the first of the words `i..8` that is not a decimal.
pub open spec fn first_bad_field(ws: Seq<Seq<u8>>, i: int) -> Option<int>
    decreases 8 - i,
{
    if i >= 8 {
        None
    } else if decimal_spec(ws[i]) is None {
        Some(i)
    } else {
        first_bad_field(ws, i + 1)
    }
}

pub open spec fn field(ws: Seq<Seq<u8>>, i: int) -> int {
    decimal_spec(ws[i])->Some_0
}

/// A line `sphere x y z radius red green blue` describes a sphere with
/// that center and radius and a solid color given by bytes in `0..=255`;
/// albedo and surface are the caller's. Lines that do not start with the
/// keyword describe nothing.
pub open spec fn sphere_line_spec(line: Seq<u8>, albedo: int, surface: surface_type) -> Result<
    Option<Element>,
    LineError,
> {
    let ws = words(line);
    if ws.len() == 0 || ws[0] != sphere_keyword() {
        Ok(None)
    } else if ws.len() < 8 {
        Err(LineError::MissingField)
    } else {
        match first_bad_field(ws, 1) {
            Some(i) => Err(LineError::BadNumber { field: i as usize }),
            None => Ok(
                Some(
                    Element::Sphere(
                        Sphere {
                            center: Point {
                                x: field(ws, 1) as i64,
                                y: field(ws, 2) as i64,
                                z: field(ws, 3) as i64,
                            },
                            radius: field(ws, 4) as i64,
                            material: Material {
                                color: Texture::color(
                                    Color {
                                        red: (field(ws, 5) / 255) as i64,
                                        green: (field(ws, 6) / 255) as i64,
                                        blue: (field(ws, 7) / 255) as i64,
                                    },
                                ),
                                albedo: albedo as i64,
                                surface,
                            },
                        },
                    ),
                ),
            ),
        }
    }
}

proof fn lemma_first_bad_field_skips(ws: Seq<Seq<u8>>, j: int, i: int)
    requires
        j <= i,
        forall|k: int| j <= k < i ==> (#[trigger] decimal_spec(ws[k])) is Some,
    ensures
        first_bad_field(ws, j) == first_bad_field(ws, i),
    decreases i - j,
{
    if j < i {
        lemma_first_bad_field_skips(ws, j + 1, i);
    }
}

fn is_sphere_keyword(w: &Vec<u8>) -> (r: bool)
    ensures
        r == (w@ == sphere_keyword()),
{
    let ok = w.len() == 6 && w[0] == 115 && w[1] == 112 && w[2] == 104 && w[3] == 101 && w[4]
        == 114 && w[5] == 101;
    proof {
        if ok {
            assert(w@ =~= sphere_keyword());
        }
    }
    ok
}

/// Reads one line of a scene description; see `sphere_line_spec`.
pub fn parse_sphere_line(line: &[u8], albedo: i64, surface: surface_type) -> (r: Result<
    Option<Element>,
    LineError,
>)
    ensures
        r == sphere_line_spec(line@, albedo as int, surface),
{
    let ws = split_words(line);
    let ghost wv = ws@.map_values(|w: Vec<u8>| w@);
    if ws.len() == 0 || !is_sphere_keyword(&ws[0]) {
        proof {
            if ws.len() > 0 {
                assert(wv[0] == ws@[0]@);
            }
        }
        return Ok(None);
    }
    proof {
        assert(wv[0] == ws@[0]@);
    }
    if ws.len() < 8 {
        return Err(LineError::MissingField);
    }
    let mut vals: Vec<i64> = Vec::new();
    let mut i: usize = 1;
    while i < 8
        invariant
            wv == ws@.map_values(|w: Vec<u8>| w@),
            wv == words(line@),
            wv[0] == sphere_keyword(),
            ws@.len() >= 8,
            1 <= i <= 8,
            vals@.len() == i - 1,
            forall|k: int| 1 <= k < i ==> (#[trigger] decimal_spec(wv[k])) is Some,
            forall|k: int| 1 <= k < i ==> vals@[k - 1] == #[trigger] field(wv, k),
        decreases 8 - i,
    {
        proof {
            assert(wv[i as int] == ws@[i as int]@);
        }
        let word = ws[i].as_slice();
        assert(word@ == wv[i as int]);
        match parse_decimal(word) {
            Some(v) => {
                vals.push(v);
            },
            None => {
                proof {
                    lemma_first_bad_field_skips(wv, 1, i as int);
                    assert(first_bad_field(wv, i as int) == Some(i as int));
                }
                return Err(LineError::BadNumber { field: i });
            },
        }
        i = i + 1;
    }
    proof {
        lemma_first_bad_field_skips(wv, 1, 8);
        assert(field(wv, 1) == vals@[0]);
        assert(field(wv, 2) == vals@[1]);
        assert(field(wv, 3) == vals@[2]);
        assert(field(wv, 4) == vals@[3]);
        assert(field(wv, 5) == vals@[4]);
        assert(field(wv, 6) == vals@[5]);
        assert(field(wv, 7) == vals@[6]);
    }
    let color = Color {
        red: channel_of(vals[4]),
        green: channel_of(vals[5]),
        blue: channel_of(vals[6]),
    };
    Ok(
        Some(
            Element::Sphere(
                Sphere {
                    center: Point { x: vals[0], y: vals[1], z: vals[2] },
                    radius: vals[3],
                    material: Material { color: Texture::color(color), albedo, surface },
                },
            ),
        ),
    )
}

/// A color byte read as a fixed-point value, divided by 255.
fn channel_of(v: i64) -> (r: i64)
    ensures
        r == v / 255,
{
    if v >= 0 {
        v / 255
    } else {
        let q = (-(v as i128)) / 255;
        let m = (-(v as i128)) % 255;
        proof {
            vstd::arithmetic::div_mod::lemma_fundamental_div_mod(-(v as int), 255);
            vstd::arithmetic::div_mod::lemma_mod_bound(-(v as int), 255);
            if m == 0 {
                vstd::arithmetic::div_mod::lemma_div_multiples_vanish(-q, 255);
                assert(255 * (-q) == v as int);
            } else {
                vstd::arithmetic::div_mod::lemma_fundamental_div_mod_converse(v as int, 255, -q - 1, 255 - m);
            }
        }
        if m == 0 {
            (-q) as i64
        } else {
            (-q - 1) as i64
        }
    }
}

} // verus!
