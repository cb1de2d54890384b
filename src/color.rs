use vstd::prelude::*;

use crate::error::ThermoError;

verus! {

/// An 8-bit RGB color.
#[derive(Debug, Clone, Copy, PartialEq, Eq, Structural)]
pub struct Color {
    pub r: u8,
    pub g: u8,
    pub b: u8,
}

/// An exact rational number `num / den`; well formed when `den > 0`.
#[derive(Debug, Clone, Copy, PartialEq, Eq, Structural)]
pub struct Fraction {
    pub num: i64,
    pub den: i64,
}

impl Fraction {
    pub open spec fn wf(self) -> bool {
        self.den > 0
    }

    /// `self <= other` as rational numbers.
    pub open spec fn le(self, other: Fraction) -> bool {
        self.num * other.den <= other.num * self.den
    }
}

/// One channel of a linear interpolation: `c1` below zero, `c2` above one,
/// else `c1 + (c2 - c1) * num / den` rounded down.
pub open spec fn lerp_channel(c1: u8, c2: u8, f: Fraction) -> int {
    if f.num < 0 {
        c1 as int
    } else if f.num > f.den {
        c2 as int
    } else {
        (c1 * (f.den - f.num) + c2 * f.num) / (f.den as int)
    }
}

pub open spec fn lerp_spec(c1: Color, c2: Color, f: Fraction) -> Color {
    Color {
        r: lerp_channel(c1.r, c2.r, f) as u8,
        g: lerp_channel(c1.g, c2.g, f) as u8,
        b: lerp_channel(c1.b, c2.b, f) as u8,
    }
}

/// The position of `value` on the scale from `min` to `max`, as a fraction
/// with a positive denominator.
pub open spec fn normalize_spec(min: i32, max: i32, value: i32) -> Fraction {
    if min < max {
        Fraction { num: (value - min) as i64, den: (max - min) as i64 }
    } else {
        Fraction { num: (min - value) as i64, den: (min - max) as i64 }
    }
}

proof fn lemma_lerp_channel_between(c1: u8, c2: u8, f: Fraction)
    requires
        f.wf(),
    ensures
        c1 <= c2 ==> c1 <= lerp_channel(c1, c2, f) <= c2,
        c2 <= c1 ==> c2 <= lerp_channel(c1, c2, f) <= c1,
{
    if 0 <= f.num <= f.den {
        let d = f.den as int;
        let n = f.num as int;
        let x = c1 * (d - n) + c2 * n;
        assert(c1 <= c2 ==> c1 * d <= x <= c2 * d) by (nonlinear_arith)
            requires
                x == c1 * (d - n) + c2 * n,
                0 <= n <= d,
        ;
        assert(c2 <= c1 ==> c2 * d <= x <= c1 * d) by (nonlinear_arith)
            requires
                x == c1 * (d - n) + c2 * n,
                0 <= n <= d,
        ;
        lemma_div_between(x, c1 as int, c2 as int, d);
    }
}

proof fn lemma_div_between(x: int, lo: int, hi: int, d: int)
    requires
        d > 0,
    ensures
        lo * d <= x ==> lo <= x / d,
        x <= hi * d ==> x / d <= hi,
        hi * d <= x ==> hi <= x / d,
        x <= lo * d ==> x / d <= lo,
{
    vstd::arithmetic::div_mod::lemma_fundamental_div_mod(x, d);
    let q = x / d;
    let r = x % d;
    assert(0 <= r < d);
    assert(lo * d <= x ==> lo <= q) by (nonlinear_arith)
        requires
            x == d * q + r,
            0 <= r < d,
    ;
    assert(x <= hi * d ==> q <= hi) by (nonlinear_arith)
        requires
            x == d * q + r,
            0 <= r < d,
    ;
    assert(hi * d <= x ==> hi <= q) by (nonlinear_arith)
        requires
            x == d * q + r,
            0 <= r < d,
    ;
    assert(x <= lo * d ==> q <= lo) by (nonlinear_arith)
        requires
            x == d * q + r,
            0 <= r < d,
    ;
}

/// The color at stop `k` of a legend of `steps` stops.
pub open spec fn blend_stop(c1: Color, c2: Color, steps: u32, k: int) -> Color {
    lerp_spec(c1, c2, Fraction { num: k as i64, den: steps as i64 })
}

proof fn lemma_lerp_channel_monotonic(c1: u8, c2: u8, f1: Fraction, f2: Fraction)
    requires
        f1.wf(),
        f2.wf(),
        f1.le(f2),
        c1 <= c2,
    ensures
        lerp_channel(c1, c2, f1) <= lerp_channel(c1, c2, f2),
{
    lemma_lerp_channel_between(c1, c2, f1);
    lemma_lerp_channel_between(c1, c2, f2);
    let n1 = f1.num as int;
    let d1 = f1.den as int;
    let n2 = f2.num as int;
    let d2 = f2.den as int;
    if f1.num > f1.den {
        assert(n2 > d2) by (nonlinear_arith)
            requires
                n1 * d2 <= n2 * d1,
                n1 > d1,
                d1 > 0,
                d2 > 0,
        ;
    } else if f1.num >= 0 && f2.num <= f2.den {
        assert(n2 >= 0) by (nonlinear_arith)
            requires
                n1 * d2 <= n2 * d1,
                n1 >= 0,
                d1 > 0,
                d2 > 0,
        ;
        let x1 = c1 * (d1 - n1) + c2 * n1;
        let x2 = c1 * (d2 - n2) + c2 * n2;
        let q1 = x1 / d1;
        assert(x1 * d2 <= x2 * d1) by (nonlinear_arith)
            requires
                x1 == c1 * (d1 - n1) + c2 * n1,
                x2 == c1 * (d2 - n2) + c2 * n2,
                n1 * d2 <= n2 * d1,
                c1 <= c2,
        ;
        vstd::arithmetic::div_mod::lemma_fundamental_div_mod(x1, d1);
        assert(q1 * d2 <= x2) by (nonlinear_arith)
            requires
                q1 * d1 <= x1,
                x1 * d2 <= x2 * d1,
                d1 > 0,
                d2 > 0,
        ;
        lemma_div_between(x2, q1, 0, d2);
    }
}

/// Interpolating at zero gives the first color and at one the second, for
/// every pair of colors and every way of writing zero and one.
pub proof fn lemma_lerp_ends(c1: Color, c2: Color, den: i64)
    requires
        den > 0,
    ensures
        lerp_spec(c1, c2, Fraction { num: 0, den: den }) == c1,
        lerp_spec(c1, c2, Fraction { num: den, den: den }) == c2,
{
    lemma_lerp_channel_ends(c1.r, c2.r, den);
    lemma_lerp_channel_ends(c1.g, c2.g, den);
    lemma_lerp_channel_ends(c1.b, c2.b, den);
}

proof fn lemma_lerp_channel_ends(c1: u8, c2: u8, den: i64)
    requires
        den > 0,
    ensures
        lerp_channel(c1, c2, Fraction { num: 0, den: den }) == c1,
        lerp_channel(c1, c2, Fraction { num: den, den: den }) == c2,
{
    let d = den as int;
    vstd::arithmetic::div_mod::lemma_div_multiples_vanish(c1 as int, d);
    vstd::arithmetic::div_mod::lemma_div_multiples_vanish(c2 as int, d);
    assert(c1 * (d - 0) + c2 * 0 == d * c1) by (nonlinear_arith);
    assert(c1 * (d - d) + c2 * d == d * c2) by (nonlinear_arith);
}

/// Interpolation does not decrease in the fraction on each channel where the
/// first color is not above the second.
pub proof fn lemma_lerp_monotonic(c1: Color, c2: Color, f1: Fraction, f2: Fraction)
    requires
        f1.wf(),
        f2.wf(),
        f1.le(f2),
    ensures
        c1.r <= c2.r ==> lerp_spec(c1, c2, f1).r <= lerp_spec(c1, c2, f2).r,
        c1.g <= c2.g ==> lerp_spec(c1, c2, f1).g <= lerp_spec(c1, c2, f2).g,
        c1.b <= c2.b ==> lerp_spec(c1, c2, f1).b <= lerp_spec(c1, c2, f2).b,
{
    lemma_lerp_channel_between(c1.r, c2.r, f1);
    lemma_lerp_channel_between(c1.r, c2.r, f2);
    lemma_lerp_channel_between(c1.g, c2.g, f1);
    lemma_lerp_channel_between(c1.g, c2.g, f2);
    lemma_lerp_channel_between(c1.b, c2.b, f1);
    lemma_lerp_channel_between(c1.b, c2.b, f2);
    if c1.r <= c2.r {
        lemma_lerp_channel_monotonic(c1.r, c2.r, f1, f2);
    }
    if c1.g <= c2.g {
        lemma_lerp_channel_monotonic(c1.g, c2.g, f1, f2);
    }
    if c1.b <= c2.b {
        lemma_lerp_channel_monotonic(c1.b, c2.b, f1, f2);
    }
}

/// Interpolating at the normalized lower bound of a scale gives the first
/// color, at the normalized upper bound the second.
pub proof fn lemma_normalize_then_lerp(c1: Color, c2: Color, min: i32, max: i32)
    requires
        min != max,
    ensures
        lerp_spec(c1, c2, normalize_spec(min, max, min)) == c1,
        lerp_spec(c1, c2, normalize_spec(min, max, max)) == c2,
{
    let den = normalize_spec(min, max, min).den;
    lemma_lerp_ends(c1, c2, den);
}

/// A legend starts at the first color, and its stops move monotonically
/// towards the second color on every channel.
pub proof fn lemma_discrete_blend_stops(c1: Color, c2: Color, steps: u32, i: int, j: int)
    requires
        0 <= i <= j < steps,
    ensures
        blend_stop(c1, c2, steps, 0) == c1,
        c1.r <= c2.r ==> blend_stop(c1, c2, steps, i).r <= blend_stop(c1, c2, steps, j).r,
        c1.g <= c2.g ==> blend_stop(c1, c2, steps, i).g <= blend_stop(c1, c2, steps, j).g,
        c1.b <= c2.b ==> blend_stop(c1, c2, steps, i).b <= blend_stop(c1, c2, steps, j).b,
        c2.r <= c1.r ==> blend_stop(c1, c2, steps, j).r <= blend_stop(c1, c2, steps, i).r,
        c2.g <= c1.g ==> blend_stop(c1, c2, steps, j).g <= blend_stop(c1, c2, steps, i).g,
        c2.b <= c1.b ==> blend_stop(c1, c2, steps, j).b <= blend_stop(c1, c2, steps, i).b,
{
    let d = steps as i64;
    lemma_lerp_ends(c1, c2, d);
    let fi = Fraction { num: i as i64, den: d };
    let fj = Fraction { num: j as i64, den: d };
    assert(fi.le(fj)) by (nonlinear_arith)
        requires
            fi.num == i,
            fj.num == j,
            fi.den == d,
            fj.den == d,
            i <= j,
            d > 0,
    ;
    lemma_lerp_monotonic(c1, c2, fi, fj);
    lemma_lerp_mirror(c1, c2, fi);
    lemma_lerp_mirror(c1, c2, fj);
    let gi = Fraction { num: (d - i) as i64, den: d };
    let gj = Fraction { num: (d - j) as i64, den: d };
    assert(gj.le(gi)) by (nonlinear_arith)
        requires
            gi.num == d - i,
            gj.num == d - j,
            gi.den == d,
            gj.den == d,
            i <= j,
            d > 0,
    ;
    lemma_lerp_monotonic(c2, c1, gj, gi);
}

/// Interpolating from `c1` to `c2` at `n / d` equals interpolating from `c2`
/// to `c1` at `(d - n) / d`.
proof fn lemma_lerp_mirror(c1: Color, c2: Color, f: Fraction)
    requires
        f.wf(),
        0 <= f.num <= f.den,
    ensures
        lerp_spec(c1, c2, f) == lerp_spec(c2, c1, Fraction { num: (f.den - f.num) as i64, den: f.den }),
{
    let n = f.num as int;
    let d = f.den as int;
    assert(c1.r * (d - n) + c2.r * n == c2.r * (d - (d - n)) + c1.r * (d - n));
    assert(c1.g * (d - n) + c2.g * n == c2.g * (d - (d - n)) + c1.g * (d - n));
    assert(c1.b * (d - n) + c2.b * n == c2.b * (d - (d - n)) + c1.b * (d - n));
}

impl Color {
    /// Interpolates linearly from `color1` (at zero) to `color2` (at one);
    /// fractions outside `[0, 1]` give the nearer end color unchanged.
    pub fn lerp(color1: Self, color2: Self, fraction: Fraction) -> (r: Self)
        requires
            fraction.wf(),
        ensures
            r == lerp_spec(color1, color2, fraction),
    {
        if fraction.num < 0 {
            return color1;
        }
        if fraction.num > fraction.den {
            return color2;
        }
        proof {
            lemma_lerp_channel_between(color1.r, color2.r, fraction);
            lemma_lerp_channel_between(color1.g, color2.g, fraction);
            lemma_lerp_channel_between(color1.b, color2.b, fraction);
        }
        Color {
            r: lerp_u8(color1.r, color2.r, fraction),
            g: lerp_u8(color1.g, color2.g, fraction),
            b: lerp_u8(color1.b, color2.b, fraction),
        }
    }

    /// `steps` colors sampled at the fractions `k / steps` for `k` in `0..steps`.
    pub fn discrete_blend(color1: Self, color2: Self, steps: u32) -> (r: Vec<Self>)
        ensures
            r@.len() == steps,
            forall|k: int| 0 <= k < steps ==> #[trigger] r@[k] == blend_stop(color1, color2, steps, k),
    {
        let mut color_vec: Vec<Self> = Vec::new();
        let mut step: u32 = 0;
        while step < steps
            invariant
                step <= steps,
                color_vec@.len() == step,
                forall|k: int|
                    0 <= k < step ==> #[trigger] color_vec@[k] == lerp_spec(
                        color1,
                        color2,
                        Fraction { num: k as i64, den: steps as i64 },
                    ),
            decreases steps - step,
        {
            let fraction = Fraction { num: step as i64, den: steps as i64 };
            color_vec.push(Self::lerp(color1, color2, fraction));
            step = step + 1;
        }
        color_vec
    }

    /// The channels in the order red, green, blue.
    pub fn to_vec(self) -> (r: Vec<u8>)
        ensures
            r@ == seq![self.r, self.g, self.b],
    {
        let mut v: Vec<u8> = Vec::new();
        v.push(self.r);
        v.push(self.g);
        v.push(self.b);
        v
    }
}

fn lerp_u8(c1: u8, c2: u8, f: Fraction) -> (r: u8)
    requires
        f.wf(),
        0 <= f.num <= f.den,
        0 <= lerp_channel(c1, c2, f) <= 255,
    ensures
        r == lerp_channel(c1, c2, f),
{
    let den = f.den as u128;
    let num = f.num as u128;
    let rest = den - num;
    assert(c1 * rest <= 255 * 0x7fff_ffff_ffff_ffff) by (nonlinear_arith)
        requires
            c1 <= 255,
            rest <= 0x7fff_ffff_ffff_ffff,
    ;
    assert(c2 * num <= 255 * 0x7fff_ffff_ffff_ffff) by (nonlinear_arith)
        requires
            c2 <= 255,
            num <= 0x7fff_ffff_ffff_ffff,
    ;
    let total = (c1 as u128) * rest + (c2 as u128) * num;
    (total / den) as u8
}

/// The position of `value` on the scale from `min` to `max`; fails when the
/// scale is degenerate (`min == max`).
pub fn normalize(min: i32, max: i32, value: i32) -> (r: Result<Fraction, ThermoError>)
    ensures
        min == max <==> r == Err::<Fraction, ThermoError>(ThermoError::DegenerateScale),
        min != max ==> r == Ok::<Fraction, ThermoError>(normalize_spec(min, max, value)),
{
    if min < max {
        Ok(Fraction { num: value as i64 - min as i64, den: max as i64 - min as i64 })
    } else if min > max {
        Ok(Fraction { num: min as i64 - value as i64, den: min as i64 - max as i64 })
    } else {
        Err(ThermoError::DegenerateScale)
    }
}

} // verus!
