use pixel_sort::bitmap::{Bitmap, Mask, Pixel};
use pixel_sort::pixel::PixelSortKeyChoice;
use pixel_sort::pixel_generators::{
    get_black, get_random_blue_shade, get_random_green_shade, get_random_pixel,
    get_random_red_shade, PixelAddChoice,
};
use pixel_sort::sort_effect::{process_sorting_effect, sort_pixels, EffectError};

fn px(r: u8, g: u8, b: u8) -> Pixel {
    Pixel::new(r, g, b, 255)
}

fn apply(
    image: &Bitmap,
    mask: &Mask,
    num: u32,
    den: u32,
    add: PixelAddChoice,
    key: PixelSortKeyChoice,
) -> Bitmap {
    let (out, _elapsed) = process_sorting_effect(image, mask, num, den, &add, &key).unwrap();
    out
}

#[test]
fn two_pixel_row_sorts_ascending_by_red() {
    // 2x1 bitmap, both pixels masked, sort by red, probability 0:
    // red keys 255 and 0 swap into ascending order.
    let b = Bitmap::new(2, 1, vec![px(255, 0, 0), px(0, 255, 0)]).unwrap();
    let m = Mask::new(2, 1, vec![255, 255]).unwrap();
    let out = apply(&b, &m, 0, 1, PixelAddChoice::Black, PixelSortKeyChoice::Red);
    assert_eq!(out.data, vec![px(0, 255, 0), px(255, 0, 0)]);
}

#[test]
fn single_pixel_all_zero_mask_is_identity() {
    let m = Mask::new(1, 1, vec![0]).unwrap();
    for p in [px(255, 0, 0), px(1, 2, 3), px(0, 0, 0)] {
        for key in [
            PixelSortKeyChoice::Hue,
            PixelSortKeyChoice::Luminance,
            PixelSortKeyChoice::ColorSum,
        ] {
            for (num, den) in [(0u32, 1u32), (1, 2), (1, 1)] {
                let b = Bitmap::new(1, 1, vec![p]).unwrap();
                let out = apply(&b, &m, num, den, PixelAddChoice::RandomPixel, key);
                assert_eq!(out.data, vec![p]);
            }
        }
    }
}

#[test]
fn all_zero_mask_is_identity_for_any_policy() {
    let b = Bitmap::new(3, 2, vec![
        px(9, 8, 7),
        px(200, 100, 50),
        px(0, 255, 0),
        px(1, 1, 1),
        px(250, 250, 250),
        px(30, 60, 90),
    ])
    .unwrap();
    let m = Mask::new(3, 2, vec![0, 0, 0, 0, 0, 0]).unwrap();
    let out = apply(&b, &m, 1, 1, PixelAddChoice::RandomPixel, PixelSortKeyChoice::Hue);
    assert_eq!(out.data, b.data);
}

#[test]
fn dimension_mismatch_is_rejected() {
    let b = Bitmap::new(2, 1, vec![px(1, 2, 3), px(4, 5, 6)]).unwrap();
    let m = Mask::new(1, 2, vec![0, 0]).unwrap();
    let r = process_sorting_effect(&b, &m, 0, 1, &PixelAddChoice::Black, &PixelSortKeyChoice::Red);
    assert!(matches!(r, Err(EffectError::DimensionMismatch)));
}

#[test]
fn unmasked_pixels_pass_through_and_masked_sort_in_place() {
    // Row: masked columns 0, 2, 3; column 1 passes through.
    let b = Bitmap::new(4, 1, vec![px(30, 0, 0), px(99, 99, 99), px(20, 0, 0), px(10, 0, 0)])
        .unwrap();
    let m = Mask::new(4, 1, vec![255, 0, 255, 255]).unwrap();
    let out = apply(&b, &m, 0, 1, PixelAddChoice::Black, PixelSortKeyChoice::Red);
    assert_eq!(
        out.data,
        vec![px(10, 0, 0), px(99, 99, 99), px(20, 0, 0), px(30, 0, 0)]
    );
}

#[test]
fn rows_sort_independently() {
    // Two rows with the same pixels reversed; each row sorts within itself.
    let b = Bitmap::new(2, 2, vec![px(5, 0, 0), px(3, 0, 0), px(1, 0, 0), px(4, 0, 0)]).unwrap();
    let m = Mask::new(2, 2, vec![255, 255, 255, 255]).unwrap();
    let out = apply(&b, &m, 0, 1, PixelAddChoice::Black, PixelSortKeyChoice::Red);
    assert_eq!(
        out.data,
        vec![px(3, 0, 0), px(5, 0, 0), px(1, 0, 0), px(4, 0, 0)]
    );
}

#[test]
fn modifying_one_row_leaves_other_rows_output_unchanged() {
    let m = Mask::new(2, 2, vec![255, 255, 255, 255]).unwrap();
    let b1 = Bitmap::new(2, 2, vec![px(5, 0, 0), px(3, 0, 0), px(1, 0, 0), px(4, 0, 0)]).unwrap();
    let b2 = Bitmap::new(2, 2, vec![px(200, 7, 9), px(8, 1, 2), px(1, 0, 0), px(4, 0, 0)]).unwrap();
    let o1 = apply(&b1, &m, 0, 1, PixelAddChoice::Black, PixelSortKeyChoice::Red);
    let o2 = apply(&b2, &m, 0, 1, PixelAddChoice::Black, PixelSortKeyChoice::Red);
    // Row 1 (the unmodified row) agrees between the two runs.
    assert_eq!(&o1.data[2..4], &o2.data[2..4]);
}

#[test]
fn equal_keys_keep_their_relative_order() {
    // All pixels share the red key 7 but differ in green: the stable sort
    // must leave the row exactly as it was.
    let row = vec![px(7, 1, 0), px(7, 2, 0), px(7, 3, 0), px(7, 4, 0)];
    let b = Bitmap::new(4, 1, row.clone()).unwrap();
    let m = Mask::new(4, 1, vec![255, 255, 255, 255]).unwrap();
    let out = apply(&b, &m, 0, 1, PixelAddChoice::Black, PixelSortKeyChoice::Red);
    assert_eq!(out.data, row);
}

#[test]
fn stable_sort_keeps_order_within_equal_keys() {
    // Mixed keys: ties (by red) keep their left-to-right order.
    let input = vec![px(2, 1, 0), px(1, 1, 0), px(2, 2, 0), px(1, 2, 0), px(0, 9, 9)];
    let sorted = sort_pixels(input, &PixelSortKeyChoice::Red);
    assert_eq!(
        sorted,
        vec![px(0, 9, 9), px(1, 1, 0), px(1, 2, 0), px(2, 1, 0), px(2, 2, 0)]
    );
}

#[test]
fn repeated_runs_without_injection_are_identical() {
    let pixels: Vec<Pixel> = (0u32..24)
        .map(|i| px((i * 37 % 256) as u8, (i * 91 % 256) as u8, (i * 13 % 256) as u8))
        .collect();
    let b = Bitmap::new(6, 4, pixels).unwrap();
    let mvals: Vec<u8> = (0u32..24).map(|i| if i % 3 == 0 { 0 } else { 255 }).collect();
    let m = Mask::new(6, 4, mvals).unwrap();
    for key in [
        PixelSortKeyChoice::Hue,
        PixelSortKeyChoice::BrokenHue,
        PixelSortKeyChoice::Luminance,
        PixelSortKeyChoice::ColorSum,
    ] {
        let o1 = apply(&b, &m, 0, 1000, PixelAddChoice::RandomPixel, key);
        let o2 = apply(&b, &m, 0, 1000, PixelAddChoice::RandomPixel, key);
        assert_eq!(o1.data, o2.data);
    }
}

#[test]
fn sorting_permutes_the_masked_pixels_of_each_row() {
    let pixels: Vec<Pixel> = (0u32..15)
        .map(|i| px((i * 53 % 256) as u8, (i * 19 % 256) as u8, (i * 71 % 256) as u8))
        .collect();
    let b = Bitmap::new(5, 3, pixels).unwrap();
    let mvals: Vec<u8> = (0u32..15).map(|i| if i % 2 == 0 { 255 } else { 0 }).collect();
    let m = Mask::new(5, 3, mvals.clone()).unwrap();
    let out = apply(&b, &m, 0, 1, PixelAddChoice::Black, PixelSortKeyChoice::ColorSum);
    for y in 0..3 {
        let mut before: Vec<Pixel> = Vec::new();
        let mut after: Vec<Pixel> = Vec::new();
        for x in 0..5 {
            let i = y * 5 + x;
            if mvals[i] == 255 {
                before.push(b.data[i]);
                after.push(out.data[i]);
            } else {
                // unmasked pixels pass through unchanged
                assert_eq!(out.data[i], b.data[i]);
            }
        }
        let sort_all = |v: &mut Vec<Pixel>| v.sort_by_key(|p| (p.r, p.g, p.b, p.a));
        sort_all(&mut before);
        sort_all(&mut after);
        assert_eq!(before, after);
    }
}

#[test]
fn certain_injection_with_black_generator_blackens_masked_pixels() {
    let b = Bitmap::new(3, 1, vec![px(10, 20, 30), px(40, 50, 60), px(70, 80, 90)]).unwrap();
    let m = Mask::new(3, 1, vec![255, 0, 255]).unwrap();
    let out = apply(&b, &m, 1, 1, PixelAddChoice::Black, PixelSortKeyChoice::Red);
    assert_eq!(
        out.data,
        vec![px(0, 0, 0), px(40, 50, 60), px(0, 0, 0)]
    );
}

#[test]
fn generators_fix_alpha_and_unnamed_channels() {
    for _ in 0..32 {
        let p = get_random_pixel();
        assert_eq!(p.a, 255);
        let r = get_random_red_shade();
        assert_eq!((r.g, r.b, r.a), (0, 0, 255));
        let g = get_random_green_shade();
        assert_eq!((g.r, g.b, g.a), (0, 0, 255));
        let bshade = get_random_blue_shade();
        assert_eq!((bshade.r, bshade.g, bshade.a), (0, 0, 255));
    }
    assert_eq!(get_black(), px(0, 0, 0));
}

#[test]
fn empty_bitmap_stays_empty() {
    let b = Bitmap::new(0, 0, Vec::new()).unwrap();
    let m = Mask::new(0, 0, Vec::new()).unwrap();
    let out = apply(&b, &m, 1, 2, PixelAddChoice::RandomPixel, PixelSortKeyChoice::Hue);
    assert_eq!(out.data.len(), 0);
    assert_eq!(out.width, 0);
    assert_eq!(out.height, 0);
}

#[test]
fn hue_key_orders_primaries_on_the_color_wheel() {
    // Hues: blue 240, red 0, green 120 -> ascending red, green, blue.
    let b = Bitmap::new(3, 1, vec![px(0, 0, 255), px(255, 0, 0), px(0, 255, 0)]).unwrap();
    let m = Mask::new(3, 1, vec![255, 255, 255]).unwrap();
    let out = apply(&b, &m, 0, 1, PixelAddChoice::Black, PixelSortKeyChoice::Hue);
    assert_eq!(
        out.data,
        vec![px(255, 0, 0), px(0, 255, 0), px(0, 0, 255)]
    );
}

#[test]
fn full_mask_sorts_whole_rows_ascending() {
    let pixels = vec![px(90, 0, 0), px(10, 0, 0), px(50, 0, 0), px(30, 0, 0)];
    let b = Bitmap::new(4, 1, pixels).unwrap();
    let m = Mask::new(4, 1, vec![255; 4]).unwrap();
    let out = apply(&b, &m, 0, 1, PixelAddChoice::Black, PixelSortKeyChoice::Red);
    let reds: Vec<u8> = out.data.iter().map(|p| p.r).collect();
    assert_eq!(reds, vec![10, 30, 50, 90]);
}
