//! Four-channel colors with exact fixed-point arithmetic.
//!
//! A channel stores a fraction of the unit interval in millionths:
//! `0` is 0.0 and [`COLOR_SCALE`] is 1.0. Blending is linear
//! interpolation whose scaling division truncates toward zero, and
//! export quantization scales a channel by 255 and truncates.

use vstd::prelude::*;
use vstd::arithmetic::div_mod::lemma_div_is_ordered;
use vstd::arithmetic::div_mod::lemma_div_multiples_vanish;
use vstd::arithmetic::div_mod::lemma_div_pos_is_pos;
use vstd::arithmetic::mul::lemma_mul_inequality;
use vstd::arithmetic::mul::lemma_mul_is_commutative;
use vstd::arithmetic::mul::lemma_mul_nonnegative;
use vstd::arithmetic::mul::lemma_mul_strictly_positive;
use vstd::arithmetic::mul::lemma_mul_unary_negation;

verus! {

/// The fixed-point value of 1.0: channels are counted in millionths.
pub const COLOR_SCALE: i64 = 1_000_000;

/// Magnitude bound on blend inputs, far outside the unit interval but
/// small enough that the interpolation arithmetic cannot overflow.
pub const CHANNEL_BOUND: i64 = 0x4000_0000;

/// A color with red, green, blue and alpha channels, each a fixed-point
/// fraction of the unit interval (see [`COLOR_SCALE`]).
#[derive(Clone, Copy, Debug, PartialEq, Eq, Structural)]
pub struct Color {
    pub r: i64,
    pub g: i64,
    pub b: i64,
    pub a: i64,
}

/// Division by [`COLOR_SCALE`] that truncates toward zero, the rounding
/// used by every blend step.
pub open spec fn scale_div_trunc(p: int) -> int {
    if p >= 0 {
        p / (COLOR_SCALE as int)
    } else {
        -((-p) / (COLOR_SCALE as int))
    }
}

/// Linear interpolation of one channel: `a + (b - a) * t`, with `t` a
/// fixed-point fraction and the scaling division truncated toward zero.
pub open spec fn lerp_channel(a: int, b: int, t: int) -> int {
    a + scale_div_trunc((b - a) * t)
}

/// The channel lies in the unit interval.
pub open spec fn channel_in_unit(c: int) -> bool {
    0 <= c <= COLOR_SCALE
}

/// Every channel lies in the unit interval; what validation establishes
/// and blending with a unit-interval factor preserves.
pub open spec fn color_in_unit(c: Color) -> bool {
    channel_in_unit(c.r as int) && channel_in_unit(c.g as int) && channel_in_unit(c.b as int)
        && channel_in_unit(c.a as int)
}

/// The channel is within the overflow-safe blending domain.
pub open spec fn channel_bounded(c: int) -> bool {
    -CHANNEL_BOUND <= c <= CHANNEL_BOUND
}

/// Every channel is within the overflow-safe blending domain.
pub open spec fn color_bounded(c: Color) -> bool {
    channel_bounded(c.r as int) && channel_bounded(c.g as int) && channel_bounded(c.b as int)
        && channel_bounded(c.a as int)
}

/// Export quantization of one channel: scale by 255 and truncate, with
/// values outside the unit interval clamped to the nearest byte.
pub open spec fn quantize(c: int) -> int {
    if c <= 0 {
        0
    } else if c >= COLOR_SCALE {
        255
    } else {
        c * 255 / (COLOR_SCALE as int)
    }
}

/// The scaled product `x * y / COLOR_SCALE` on non-negative values.
fn scale_product(x: u64, y: u64) -> (r: u64)
    requires
        x <= 0x1_0000_0000,
        y <= 0x4000_0000,
    ensures
        r == (x as int * y as int) / (COLOR_SCALE as int),
        r <= x as int * y as int,
{
    proof {
        assert(x as int * y as int <= 0x1_0000_0000 * 0x4000_0000) by (nonlinear_arith)
            requires
                0 <= x <= 0x1_0000_0000,
                0 <= y <= 0x4000_0000,
        ;
        assert(x as int * y as int >= 0) by (nonlinear_arith)
            requires
                0 <= x,
                0 <= y,
        ;
    }
    let p = x * y;
    let r = p / (COLOR_SCALE as u64);
    proof {
        assert(p as int == (COLOR_SCALE as int) * (r as int) + (p as int % (COLOR_SCALE as int)));
        assert(r as int <= (COLOR_SCALE as int) * (r as int));
    }
    r
}

/// One interpolated channel; the executable form of [`lerp_channel`],
/// carried out on magnitudes so that every division is on non-negative
/// values.
fn lerp_channel_exec(a: i64, b: i64, t: i64) -> (r: i64)
    requires
        channel_bounded(a as int),
        channel_bounded(b as int),
        channel_bounded(t as int),
    ensures
        r == lerp_channel(a as int, b as int, t as int),
{
    let dm: u64 = if b >= a {
        (b - a) as u64
    } else {
        (a - b) as u64
    };
    let tm: u64 = if t >= 0 {
        t as u64
    } else {
        (-t) as u64
    };
    let q64 = scale_product(dm, tm);
    proof {
        assert(dm as int * tm as int <= 0x1_0000_0000 * 0x4000_0000) by (nonlinear_arith)
            requires
                0 <= dm <= 0x1_0000_0000,
                0 <= tm <= 0x4000_0000,
        ;
    }
    let q = q64 as i64;
    let r = if (b >= a) == (t >= 0) {
        a + q
    } else {
        a - q
    };
    proof {
        let p = (b as int - a as int) * (t as int);
        let m = dm as int * tm as int;
        lemma_mul_nonnegative(dm as int, tm as int);
        lemma_mul_unary_negation(b as int - a as int, t as int);
        lemma_mul_unary_negation(a as int - b as int, t as int);
        if b >= a && t >= 0 {
            assert(p == m);
        } else if b >= a && t < 0 {
            // m == (b - a) * (-t) == -((b - a) * t) == -p
            assert(m == -p);
            if m == 0 {
                assert(scale_div_trunc(p) == 0);
            } else {
                assert(scale_div_trunc(p) == -(m / (COLOR_SCALE as int)));
            }
        } else if b < a && t >= 0 {
            // m == (a - b) * t == (-(b - a)) * t == -p
            assert(m == -p);
            if m == 0 {
                assert(scale_div_trunc(p) == 0);
            } else {
                assert(scale_div_trunc(p) == -(m / (COLOR_SCALE as int)));
            }
        } else {
            // m == (a - b) * (-t) == -((a - b) * t) == (b - a) * t == p
            assert(m == p);
        }
        assert(r == a as int + scale_div_trunc(p));
    }
    r
}

/// One quantized channel: scaled by 255 and truncated to a byte, with
/// out-of-range values clamped as a saturating cast would.
fn quantize_channel(c: i64) -> (q: u8)
    ensures
        q as int == quantize(c as int),
{
    if c <= 0 {
        0
    } else if c >= COLOR_SCALE {
        255
    } else {
        let scaled = (c as u64) * 255 / (COLOR_SCALE as u64);
        proof {
            assert(c as int * 255 < COLOR_SCALE * 255);
            lemma_div_is_ordered(c as int * 255, (COLOR_SCALE - 1) * 255, COLOR_SCALE as int);
        }
        scaled as u8
    }
}

impl Color {
    /// A color from its four channels, given in millionths of the unit
    /// interval.
    pub fn new(r: i64, g: i64, b: i64, a: i64) -> (c: Color)
        ensures
            c == (Color { r, g, b, a }),
    {
        Color { r, g, b, a }
    }

    /// The per-channel linear interpolation from `self` toward `other`
    /// by factor `t`: `self + (other - self) * t` in each channel.
    ///
    /// `t` is a fixed-point fraction that need not lie in the unit
    /// interval; out-of-range factors extrapolate.
    pub fn lerp(&self, other: &Color, t: i64) -> (c: Color)
        requires
            color_bounded(*self),
            color_bounded(*other),
            channel_bounded(t as int),
        ensures
            c.r == lerp_channel(self.r as int, other.r as int, t as int),
            c.g == lerp_channel(self.g as int, other.g as int, t as int),
            c.b == lerp_channel(self.b as int, other.b as int, t as int),
            c.a == lerp_channel(self.a as int, other.a as int, t as int),
    {
        Color {
            r: lerp_channel_exec(self.r, other.r, t),
            g: lerp_channel_exec(self.g, other.g, t),
            b: lerp_channel_exec(self.b, other.b, t),
            a: lerp_channel_exec(self.a, other.a, t),
        }
    }

    /// The color quantized for export: each channel scaled by 255 and
    /// truncated, in the order red, green, blue, alpha.
    pub fn to_rgba(&self) -> (bytes: [u8; 4])
        ensures
            bytes[0] as int == quantize(self.r as int),
            bytes[1] as int == quantize(self.g as int),
            bytes[2] as int == quantize(self.b as int),
            bytes[3] as int == quantize(self.a as int),
    {
        [
            quantize_channel(self.r),
            quantize_channel(self.g),
            quantize_channel(self.b),
            quantize_channel(self.a),
        ]
    }
}

/// Interpolating between unit-interval channels by a unit-interval
/// factor stays in the unit interval, between the two endpoints.
pub proof fn lemma_lerp_channel_in_unit(a: int, b: int, t: int)
    requires
        channel_in_unit(a),
        channel_in_unit(b),
        channel_in_unit(t),
    ensures
        channel_in_unit(lerp_channel(a, b, t)),
{
    let s = COLOR_SCALE as int;
    if b >= a {
        let p = (b - a) * t;
        lemma_mul_nonnegative(b - a, t);
        lemma_mul_inequality(t, s, b - a);
        lemma_mul_is_commutative(b - a, t);
        lemma_mul_is_commutative(s, b - a);
        lemma_div_is_ordered(p, (b - a) * s, s);
        lemma_div_multiples_vanish(b - a, s);
        lemma_div_pos_is_pos(p, s);
        assert(lerp_channel(a, b, t) == a + p / s);
    } else {
        let m = (a - b) * t;
        lemma_mul_nonnegative(a - b, t);
        lemma_mul_unary_negation(b - a, t);
        assert((b - a) * t == -m);
        lemma_mul_inequality(t, s, a - b);
        lemma_mul_is_commutative(a - b, t);
        lemma_mul_is_commutative(s, a - b);
        lemma_div_is_ordered(m, (a - b) * s, s);
        lemma_div_multiples_vanish(a - b, s);
        lemma_div_pos_is_pos(m, s);
        if m == 0 {
            assert(scale_div_trunc(-m) == 0);
        } else {
            assert(scale_div_trunc((b - a) * t) == -(m / s));
        }
        assert(lerp_channel(a, b, t) == a - m / s);
    }
}

/// Interpolating by the full factor 1.0 lands exactly on the target
/// channel: truncation loses nothing when the division is exact.
pub proof fn lemma_lerp_channel_full(a: int, b: int)
    ensures
        lerp_channel(a, b, COLOR_SCALE as int) == b,
{
    let s = COLOR_SCALE as int;
    if b >= a {
        lemma_mul_is_commutative(b - a, s);
        lemma_div_multiples_vanish(b - a, s);
        lemma_mul_nonnegative(b - a, s);
    } else {
        lemma_mul_unary_negation(a - b, s);
        assert((b - a) * s == -((a - b) * s));
        lemma_mul_is_commutative(a - b, s);
        lemma_div_multiples_vanish(a - b, s);
        lemma_mul_strictly_positive(a - b, s);
    }
}

/// Interpolating by factor 0 leaves the source channel unchanged.
pub proof fn lemma_lerp_channel_zero(a: int, b: int)
    ensures
        lerp_channel(a, b, 0) == a,
{
    assert((b - a) * 0 == 0) by (nonlinear_arith);
}

} // verus!
