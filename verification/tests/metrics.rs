use pixel_sort::bitmap::Pixel;
use pixel_sort::pixel::{hue, luminance, some_color, sort_key, PixelSortKeyChoice};

use colors_transform::{Color, Rgb};

fn px(r: u8, g: u8, b: u8) -> Pixel {
    Pixel::new(r, g, b, 255)
}

#[test]
fn luminance_is_bt709_weighted_sum_scaled() {
    // 10000 * (0.2126 R + 0.7152 G + 0.0722 B), exactly.
    assert_eq!(luminance(&px(0, 0, 0)), 0);
    assert_eq!(luminance(&px(255, 255, 255)), 2_550_000);
    assert_eq!(luminance(&px(255, 0, 0)), 2126 * 255);
    assert_eq!(luminance(&px(0, 255, 0)), 7152 * 255);
    assert_eq!(luminance(&px(0, 0, 255)), 722 * 255);
    assert_eq!(luminance(&px(10, 20, 30)), 2126 * 10 + 7152 * 20 + 722 * 30);
}

#[test]
fn hue_of_primary_and_achromatic_pixels() {
    assert_eq!(hue(&px(0, 0, 0)), 0);
    assert_eq!(hue(&px(128, 128, 128)), 0);
    assert_eq!(hue(&px(255, 255, 255)), 0);
    assert_eq!(hue(&px(255, 0, 0)), 0);
    assert_eq!(hue(&px(0, 255, 0)), 120);
    assert_eq!(hue(&px(0, 0, 255)), 240);
    assert_eq!(hue(&px(255, 255, 0)), 60);
    assert_eq!(hue(&px(0, 255, 255)), 180);
    assert_eq!(hue(&px(255, 0, 255)), 300);
}

#[test]
fn hue_rounds_and_stays_below_360() {
    // (255, 0, 1): the exact hue is 360 - 60/255 of a degree, which rounds to
    // 360 and wraps to 0.
    assert_eq!(hue(&px(255, 0, 1)), 0);
    // (255, 0, 3): 360 - 180/255 rounds to 359.
    assert_eq!(hue(&px(255, 0, 3)), 359);
    // (255, 128, 0): 60 * 128/255 = 30.12 rounds to 30.
    assert_eq!(hue(&px(255, 128, 0)), 30);
    for r in [0u8, 1, 17, 128, 254, 255] {
        for g in [0u8, 3, 99, 200, 255] {
            for b in [0u8, 5, 127, 255] {
                let h = hue(&px(r, g, b));
                assert!((0..360).contains(&h));
            }
        }
    }
}

#[test]
fn hue_matches_hsl_reference_conversion() {
    // The reference conversion normalises through f32, so allow one degree of
    // circular slack for its rounding.
    for r in [0u8, 1, 13, 77, 128, 200, 254, 255] {
        for g in [0u8, 2, 55, 128, 201, 255] {
            for b in [0u8, 7, 99, 180, 255] {
                let ours = hue(&px(r, g, b)) as i32;
                let reference =
                    Rgb::from(r as f32, g as f32, b as f32).to_hsl().get_hue().round() as i32 % 360;
                let diff = (ours - reference).rem_euclid(360).min((reference - ours).rem_euclid(360));
                assert!(
                    diff <= 1,
                    "hue mismatch for ({}, {}, {}): {} vs {}",
                    r,
                    g,
                    b,
                    ours,
                    reference
                );
            }
        }
    }
}

#[test]
fn broken_hue_truncates_before_scaling() {
    // Achromatic pixels map to 0.
    assert_eq!(some_color(&px(0, 0, 0)), 0);
    assert_eq!(some_color(&px(77, 77, 77)), 0);
    // Max = red: (g - b) / delta truncates to 0 unless g - b is +-delta.
    assert_eq!(some_color(&px(255, 0, 0)), 0);
    assert_eq!(some_color(&px(255, 128, 0)), 0); // 128/255 truncates to 0
    assert_eq!(some_color(&px(255, 255, 0)), 60); // 255/255 = 1
    assert_eq!(some_color(&px(255, 0, 255)), 300); // -255/255 = -1 -> -60 -> 300
    // Max = green: 2 + (b - r) / delta.
    assert_eq!(some_color(&px(0, 255, 0)), 120);
    assert_eq!(some_color(&px(0, 255, 255)), 180); // 2 + 1 = 3
    assert_eq!(some_color(&px(254, 255, 0)), 120); // 2 + (-254/255 -> 0) = 2
    // Max = blue: 4 + (r - g) / delta.
    assert_eq!(some_color(&px(0, 0, 255)), 240);
    assert_eq!(some_color(&px(255, 0, 254)), 0); // max = red, (0-254)/255 -> 0
}

#[test]
fn sort_keys_match_their_metrics() {
    let p = px(10, 200, 30);
    assert_eq!(sort_key(&PixelSortKeyChoice::Red, &p), 10);
    assert_eq!(sort_key(&PixelSortKeyChoice::Green, &p), 200);
    assert_eq!(sort_key(&PixelSortKeyChoice::Blue, &p), 30);
    assert_eq!(sort_key(&PixelSortKeyChoice::ColorSum, &p), 240);
    assert_eq!(sort_key(&PixelSortKeyChoice::Hue, &p), hue(&p));
    assert_eq!(sort_key(&PixelSortKeyChoice::BrokenHue, &p), some_color(&p));
    // Luminance key is the rounded unscaled luminance.
    assert_eq!(sort_key(&PixelSortKeyChoice::Luminance, &px(255, 255, 255)), 255);
    assert_eq!(sort_key(&PixelSortKeyChoice::Luminance, &px(0, 0, 0)), 0);
    // 2126*100 + 7152*50 + 722*25 = 588250 -> 58.825 rounds to 59.
    assert_eq!(sort_key(&PixelSortKeyChoice::Luminance, &px(100, 50, 25)), 59);
}
