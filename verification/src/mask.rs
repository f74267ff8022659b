//! Mask derivation: a binary (0/255) selection mask from a bitmap, a scalar
//! metric, an open threshold band and an invert flag.
//!
//! Threshold bands and mask metrics share the fixed-point scale
//! [`crate::pixel::METRIC_SCALE`], so the strict in-band comparison is exact
//! integer arithmetic.

use vstd::prelude::*;

use crate::bitmap::{Bitmap, Mask, Pixel};
use crate::pixel::{broken_hue_spec, hue_spec, luminance, luminance_scaled_spec, hue, some_color};

verus! {

/// The selectable mask metrics.
#[derive(Clone, Copy, Debug, PartialEq, Eq, Structural)]
pub enum MaskFuncChoice {
    Luminance,
    Hue,
    BrokenHue,
    Red,
    Green,
    Blue,
    ColorSum,
}

/// The metric value of a pixel under the chosen mask function, scaled by
/// `METRIC_SCALE`.
pub open spec fn mask_metric_spec(c: MaskFuncChoice, p: Pixel) -> int {
    match c {
        MaskFuncChoice::Luminance => luminance_scaled_spec(p),
        MaskFuncChoice::Hue => hue_spec(p) * 10000,
        MaskFuncChoice::BrokenHue => broken_hue_spec(p) * 10000,
        MaskFuncChoice::Red => p.r as int * 10000,
        MaskFuncChoice::Green => p.g as int * 10000,
        MaskFuncChoice::Blue => p.b as int * 10000,
        MaskFuncChoice::ColorSum => (p.r as int + p.g as int + p.b as int) * 10000,
    }
}

/// The value range of each metric, scaled by `METRIC_SCALE`; threshold bands
/// for the metric lie inside it.
pub open spec fn metric_range_spec(c: MaskFuncChoice) -> (i64, i64) {
    match c {
        MaskFuncChoice::Luminance => (0i64, 2_550_000i64),
        MaskFuncChoice::Hue => (0i64, 3_600_000i64),
        MaskFuncChoice::BrokenHue => (0i64, 3_600_000i64),
        MaskFuncChoice::Red => (0i64, 2_550_000i64),
        MaskFuncChoice::Green => (0i64, 2_550_000i64),
        MaskFuncChoice::Blue => (0i64, 2_550_000i64),
        MaskFuncChoice::ColorSum => (0i64, 7_650_000i64),
    }
}

impl MaskFuncChoice {
    /// Lower and upper bound of this metric, in scaled metric units, for
    /// sizing a caller's threshold controls.
    pub fn get_range(&self) -> (r: (i64, i64))
        ensures
            r == metric_range_spec(*self),
    {
        match self {
            MaskFuncChoice::Luminance => (0, 2_550_000),
            MaskFuncChoice::Hue => (0, 3_600_000),
            MaskFuncChoice::BrokenHue => (0, 3_600_000),
            MaskFuncChoice::Red => (0, 2_550_000),
            MaskFuncChoice::Green => (0, 2_550_000),
            MaskFuncChoice::Blue => (0, 2_550_000),
            MaskFuncChoice::ColorSum => (0, 7_650_000),
        }
    }
}

/// A metric value is in the threshold band iff it lies strictly between both
/// bounds; a value exactly equal to a bound is not in band.
pub open spec fn in_band(v: int, low: int, high: int) -> bool {
    low < v && v < high
}

/// The mask value of a single metric value: 255 when the in-band test,
/// XOR-ed with the invert flag, holds; 0 otherwise.
pub open spec fn mask_pixel_spec(v: int, low: int, high: int, invert: bool) -> u8 {
    if in_band(v, low, high) != invert {
        255
    } else {
        0
    }
}

/// The metric value of a pixel under the chosen mask function.
pub fn mask_metric(c: &MaskFuncChoice, pixel: &Pixel) -> (v: i64)
    ensures
        v == mask_metric_spec(*c, *pixel),
{
    match c {
        MaskFuncChoice::Luminance => luminance(pixel),
        MaskFuncChoice::Hue => (hue(pixel) as i64) * 10000,
        MaskFuncChoice::BrokenHue => (some_color(pixel) as i64) * 10000,
        MaskFuncChoice::Red => (pixel.r as i64) * 10000,
        MaskFuncChoice::Green => (pixel.g as i64) * 10000,
        MaskFuncChoice::Blue => (pixel.b as i64) * 10000,
        MaskFuncChoice::ColorSum => (pixel.r as i64 + pixel.g as i64 + pixel.b as i64) * 10000,
    }
}

fn mask_pixel(v: i64, low_threshold: i64, high_threshold: i64, invert_mask: bool) -> (r: u8)
    ensures
        r == mask_pixel_spec(v as int, low_threshold as int, high_threshold as int, invert_mask),
{
    if (low_threshold < v && v < high_threshold) ^ invert_mask {
        255
    } else {
        0
    }
}

/// Derives the binary selection mask of a bitmap: for every pixel, the mask
/// holds 255 exactly when the pixel's metric value lies strictly inside the
/// threshold band, XOR-ed with the invert flag, and 0 otherwise.  The mask
/// has the bitmap's dimensions.  Total: degenerate bands (`low >= high`) are
/// legal and give an all-0 or all-255 mask depending on the invert flag.
pub fn mask_image(
    image: &Bitmap,
    low_threshold: i64,
    high_threshold: i64,
    invert_mask: bool,
    mask_function: &MaskFuncChoice,
) -> (m: Mask)
    requires
        image.wf(),
    ensures
        m.wf(),
        m.width == image.width,
        m.height == image.height,
        forall|i: int|
            0 <= i < image.data@.len() ==> m.data@[i] == mask_pixel_spec(
                mask_metric_spec(*mask_function, image.data@[i]),
                low_threshold as int,
                high_threshold as int,
                invert_mask,
            ),
        forall|x: int, y: int|
            0 <= x < image.width && 0 <= y < image.height ==> #[trigger] m.px(x, y)
                == mask_pixel_spec(
                mask_metric_spec(*mask_function, image.px(x, y)),
                low_threshold as int,
                high_threshold as int,
                invert_mask,
            ),
{
    let len = image.data.len();
    let mut data: Vec<u8> = Vec::new();
    let mut i: usize = 0;
    while i < len
        invariant
            i <= len,
            len == image.data@.len(),
            data@.len() == i,
            forall|j: int|
                0 <= j < i ==> data@[j] == mask_pixel_spec(
                    mask_metric_spec(*mask_function, image.data@[j]),
                    low_threshold as int,
                    high_threshold as int,
                    invert_mask,
                ),
        decreases len - i,
    {
        let v = mask_metric(mask_function, &image.data[i]);
        data.push(mask_pixel(v, low_threshold, high_threshold, invert_mask));
        i += 1;
    }
    let m = Mask { width: image.width, height: image.height, data };
    proof {
        let w = image.width as int;
        let h = image.height as int;
        assert forall|x: int, y: int| 0 <= x < w && 0 <= y < h implies #[trigger] m.px(x, y)
            == mask_pixel_spec(
            mask_metric_spec(*mask_function, image.px(x, y)),
            low_threshold as int,
            high_threshold as int,
            invert_mask,
        ) by {
            assert(0 <= y * w + x < w * h) by (nonlinear_arith)
                requires
                    0 <= x < w,
                    0 <= y < h,
            ;
        }
    }
    m
}

/// Threshold strictness: a metric value exactly equal to either threshold is
/// never in band, so its mask value is decided by the invert flag alone.
pub proof fn lemma_threshold_strict(v: int, low: int, high: int, invert: bool)
    requires
        v == low || v == high,
    ensures
        !in_band(v, low, high),
        mask_pixel_spec(v, low, high, invert) == if invert {
            255u8
        } else {
            0u8
        },
{
}

/// A degenerate band (`low >= high`) contains no value at all, so the mask
/// is all-zero, or all-255 when inverted.
pub proof fn lemma_degenerate_band(v: int, low: int, high: int, invert: bool)
    requires
        low >= high,
    ensures
        !in_band(v, low, high),
        mask_pixel_spec(v, low, high, invert) == if invert {
            255u8
        } else {
            0u8
        },
{
}

/// Invert symmetry: for every metric value and band, the inverted mask value
/// is the bitwise NOT of the non-inverted one.
pub proof fn lemma_invert_symmetry(v: int, low: int, high: int)
    ensures
        mask_pixel_spec(v, low, high, true) == !mask_pixel_spec(v, low, high, false),
{
    assert(!255u8 == 0u8) by (bit_vector);
    assert(!0u8 == 255u8) by (bit_vector);
}

/// Invert symmetry lifted to whole masks: two masks derived from the same
/// bitmap, metric and band with opposite invert flags are pixelwise bitwise
/// complements.
pub proof fn lemma_mask_invert_image(
    image: Bitmap,
    m_plain: Mask,
    m_inverted: Mask,
    c: MaskFuncChoice,
    low: int,
    high: int,
)
    requires
        forall|i: int|
            0 <= i < image.data@.len() ==> m_plain.data@[i] == mask_pixel_spec(
                mask_metric_spec(c, image.data@[i]),
                low,
                high,
                false,
            ),
        forall|i: int|
            0 <= i < image.data@.len() ==> m_inverted.data@[i] == mask_pixel_spec(
                mask_metric_spec(c, image.data@[i]),
                low,
                high,
                true,
            ),
    ensures
        forall|i: int|
            0 <= i < image.data@.len() ==> m_inverted.data@[i] == !m_plain.data@[i],
{
    assert forall|i: int| 0 <= i < image.data@.len() implies m_inverted.data@[i] == !m_plain.data@[
        i
    ] by {
        lemma_invert_symmetry(mask_metric_spec(c, image.data@[i]), low, high);
    }
}

} // verus!
