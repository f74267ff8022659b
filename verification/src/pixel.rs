//! Scalar pixel metrics: luminance, two hue variants, raw channels and the
//! channel sum, together with the integer sort keys derived from them.
//!
//! All metrics are exact integer functions.  Luminance is kept scaled by
//! [`METRIC_SCALE`] so that the ITU-R BT.709 weights 0.2126 / 0.7152 / 0.0722
//! become the exact integers 2126 / 7152 / 722.

use vstd::prelude::*;

use crate::bitmap::Pixel;

verus! {

/// Fixed-point scale for fractional metric values and threshold bands:
/// a metric value of `v` stands for the real number `v / METRIC_SCALE`.
pub const METRIC_SCALE: i64 = 10000;

/// The selectable sort-key metrics.
#[derive(Clone, Copy, Debug, PartialEq, Eq, Structural)]
pub enum PixelSortKeyChoice {
    Hue,
    BrokenHue,
    Luminance,
    Red,
    Green,
    Blue,
    ColorSum,
}

/// Luminance scaled by `METRIC_SCALE`:
/// `10000 * (0.2126 R + 0.7152 G + 0.0722 B)`, range `[0, 2_550_000]`.
pub open spec fn luminance_scaled_spec(p: Pixel) -> int {
    2126 * p.r as int + 7152 * p.g as int + 722 * p.b as int
}

pub open spec fn max3(a: int, b: int, c: int) -> int {
    if a >= b && a >= c {
        a
    } else if b >= c {
        b
    } else {
        c
    }
}

pub open spec fn min3(a: int, b: int, c: int) -> int {
    if a <= b && a <= c {
        a
    } else if b <= c {
        b
    } else {
        c
    }
}

/// Truncating division (rounds toward zero), for a positive divisor.
pub open spec fn tdiv(a: int, d: int) -> int
    recommends
        d > 0,
{
    if a >= 0 {
        a / d
    } else {
        -((-a) / d)
    }
}

/// The HSL hue angle of a pixel in degrees, rounded to the nearest integer
/// (ties away from zero) and wrapped into `[0, 360)`.  Achromatic pixels
/// (R = G = B) map to hue 0.
///
/// For chromatic pixels the exact hue is `60 * num / delta` degrees, where
/// `delta = max - min` of the channels and `num` selects the sector:
/// `G - B` (wrapped by `6 * delta` when negative) when R is the maximum,
/// `B - R + 2 * delta` when G is, and `R - G + 4 * delta` when B is.
pub open spec fn hue_spec(p: Pixel) -> int {
    let r = p.r as int;
    let g = p.g as int;
    let b = p.b as int;
    let mx = max3(r, g, b);
    let mn = min3(r, g, b);
    if mx == mn {
        0
    } else {
        let d = mx - mn;
        let num = if mx == r {
            if g >= b {
                g - b
            } else {
                g - b + 6 * d
            }
        } else if mx == g {
            b - r + 2 * d
        } else {
            r - g + 4 * d
        };
        let h = (120 * num + d) / (2 * d);
        if h == 360 {
            0
        } else {
            h
        }
    }
}

/// The legacy, numerically faulty hue approximation: it divides the channel
/// difference by `delta` with truncating integer division *before* scaling by
/// 60, so the quotient collapses to -1, 0 or 1 per sector.  Kept as its own
/// selectable metric because it yields a distinct artistic ordering.
pub open spec fn broken_hue_spec(p: Pixel) -> int {
    let r = p.r as int;
    let g = p.g as int;
    let b = p.b as int;
    let mx = max3(r, g, b);
    let mn = min3(r, g, b);
    if mx == mn {
        0
    } else {
        let d = mx - mn;
        let h0 = if mx == r {
            tdiv(g - b, d)
        } else if mx == g {
            2 + tdiv(b - r, d)
        } else {
            4 + tdiv(r - g, d)
        };
        let h1 = h0 * 60;
        if h1 < 0 {
            h1 + 360
        } else {
            h1
        }
    }
}

/// The integer sort key of a pixel under the chosen metric.  Hue-like keys
/// are in `[0, 360)`, channel keys in `[0, 255]`, the channel sum in
/// `[0, 765]`; luminance is rounded to the nearest integer (ties up).
pub open spec fn sort_key_spec(c: PixelSortKeyChoice, p: Pixel) -> int {
    match c {
        PixelSortKeyChoice::Hue => hue_spec(p),
        PixelSortKeyChoice::BrokenHue => broken_hue_spec(p),
        PixelSortKeyChoice::Luminance => (luminance_scaled_spec(p) + 5000) / 10000,
        PixelSortKeyChoice::Red => p.r as int,
        PixelSortKeyChoice::Green => p.g as int,
        PixelSortKeyChoice::Blue => p.b as int,
        PixelSortKeyChoice::ColorSum => p.r as int + p.g as int + p.b as int,
    }
}

/// Luminance of a pixel, scaled by `METRIC_SCALE` so the BT.709 channel
/// weights are exact.
pub fn luminance(pixel: &Pixel) -> (v: i64)
    ensures
        v == luminance_scaled_spec(*pixel),
        0 <= v <= 2_550_000,
{
    2126 * (pixel.r as i64) + 7152 * (pixel.g as i64) + 722 * (pixel.b as i64)
}

/// The HSL hue angle of a pixel in degrees, rounded, in `[0, 360)`.
pub fn hue(pixel: &Pixel) -> (h: i16)
    ensures
        h as int == hue_spec(*pixel),
        0 <= h < 360,
{
    let r = pixel.r as u32;
    let g = pixel.g as u32;
    let b = pixel.b as u32;
    let mut mx = r;
    if g > mx {
        mx = g;
    }
    if b > mx {
        mx = b;
    }
    let mut mn = r;
    if g < mn {
        mn = g;
    }
    if b < mn {
        mn = b;
    }
    assert(mx as int == max3(r as int, g as int, b as int));
    assert(mn as int == min3(r as int, g as int, b as int));
    if mx == mn {
        return 0;
    }
    let d = mx - mn;
    let num = if mx == r {
        if g >= b {
            g - b
        } else {
            g + 6 * d - b
        }
    } else if mx == g {
        b + 2 * d - r
    } else {
        r + 4 * d - g
    };
    assert(num < 6 * d);
    let h = (120 * num + d) / (2 * d);
    assert(h < 361) by {
        lemma_round_div_bound(num as int, d as int);
    }
    if h == 360 {
        0
    } else {
        h as i16
    }
}

/// Rounding `60 * num / d` to the nearest integer stays below 361 while
/// `num < 6 * d`.
proof fn lemma_round_div_bound(num: int, d: int)
    requires
        0 < d,
        0 <= num < 6 * d,
    ensures
        0 <= (120 * num + d) / (2 * d) <= 360,
{
    let q = (120 * num + d) / (2 * d);
    vstd::arithmetic::div_mod::lemma_fundamental_div_mod(120 * num + d, 2 * d);
    let rem = (120 * num + d) % (2 * d);
    vstd::arithmetic::div_mod::lemma_mod_bound(120 * num + d, 2 * d);
    assert(120 * num + d == 2 * d * q + rem);
    assert(120 * num + d < 361 * (2 * d)) by (nonlinear_arith)
        requires
            num < 6 * d,
            d > 0,
    ;
    assert(q <= 360) by (nonlinear_arith)
        requires
            2 * d * q + rem == 120 * num + d,
            120 * num + d < 361 * (2 * d),
            0 <= rem,
            d > 0,
    ;
    assert(q >= 0) by (nonlinear_arith)
        requires
            2 * d * q + rem == 120 * num + d,
            rem < 2 * d,
            num >= 0,
            d > 0,
    ;
}

/// The legacy truncating-division hue approximation, kept as a distinct
/// selectable metric.
pub fn some_color(pixel: &Pixel) -> (h: i16)
    ensures
        h as int == broken_hue_spec(*pixel),
        0 <= h <= 300,
{
    let r = pixel.r as u32;
    let g = pixel.g as u32;
    let b = pixel.b as u32;
    let mut mx = r;
    if g > mx {
        mx = g;
    }
    if b > mx {
        mx = b;
    }
    let mut mn = r;
    if g < mn {
        mn = g;
    }
    if b < mn {
        mn = b;
    }
    assert(mx as int == max3(r as int, g as int, b as int));
    assert(mn as int == min3(r as int, g as int, b as int));
    if mx == mn {
        return 0;
    }
    let d = mx - mn;
    let h0: i32 = if mx == r {
        if g >= b {
            ((g - b) / d) as i32
        } else {
            -(((b - g) / d) as i32)
        }
    } else if mx == g {
        if b >= r {
            2 + ((b - r) / d) as i32
        } else {
            2 - ((r - b) / d) as i32
        }
    } else {
        if r >= g {
            4 + ((r - g) / d) as i32
        } else {
            4 - ((g - r) / d) as i32
        }
    };
    assert(-1 <= h0 <= 5) by {
        lemma_small_quotient(g as int, b as int, d as int);
        lemma_small_quotient(b as int, r as int, d as int);
        lemma_small_quotient(r as int, g as int, d as int);
    }
    let h1: i32 = h0 * 60;
    if h1 < 0 {
        (h1 + 360) as i16
    } else {
        h1 as i16
    }
}

/// The truncating quotient of a channel difference by `delta` is -1, 0 or 1
/// whenever both channels lie within `delta` of each other.
proof fn lemma_small_quotient(a: int, b: int, d: int)
    requires
        0 < d,
        -d <= a - b <= d,
    ensures
        -1 <= tdiv(a - b, d) <= 1,
        a >= b ==> (a - b) / d == tdiv(a - b, d),
        a < b ==> -((b - a) / d) == tdiv(a - b, d),
{
    if a >= b {
        if a - b == d {
            vstd::arithmetic::div_mod::lemma_div_by_self(d);
        } else {
            vstd::arithmetic::div_mod::lemma_basic_div(a - b, d);
        }
    } else {
        if b - a == d {
            vstd::arithmetic::div_mod::lemma_div_by_self(d);
        } else {
            vstd::arithmetic::div_mod::lemma_basic_div(b - a, d);
        }
    }
}

/// The integer sort key of a pixel under the chosen metric.
pub fn sort_key(c: &PixelSortKeyChoice, pixel: &Pixel) -> (k: i16)
    ensures
        k as int == sort_key_spec(*c, *pixel),
        0 <= k <= 765,
{
    match c {
        PixelSortKeyChoice::Hue => hue(pixel),
        PixelSortKeyChoice::BrokenHue => some_color(pixel),
        PixelSortKeyChoice::Luminance => {
            let lum = luminance(pixel);
            let k = (lum + 5000) / 10000;
            assert(0 <= k <= 255) by {
                vstd::arithmetic::div_mod::lemma_div_is_ordered(
                    lum as int + 5000,
                    2_555_000,
                    10000,
                );
                vstd::arithmetic::div_mod::lemma_div_pos_is_pos(lum as int + 5000, 10000);
            }
            k as i16
        },
        PixelSortKeyChoice::Red => pixel.r as i16,
        PixelSortKeyChoice::Green => pixel.g as i16,
        PixelSortKeyChoice::Blue => pixel.b as i16,
        PixelSortKeyChoice::ColorSum => pixel.r as i16 + pixel.g as i16 + pixel.b as i16,
    }
}

} // verus!
