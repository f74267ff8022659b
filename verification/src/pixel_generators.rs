//! Pixel injection generators: each call produces one replacement RGBA pixel
//! with alpha fixed at 255.  The random variants draw from an uncoordinated
//! per-call random source, so no reproducibility is promised across calls.

use vstd::prelude::*;

use crate::bitmap::Pixel;

verus! {

/// The selectable pixel generators.
#[derive(Clone, Copy, Debug, PartialEq, Eq, Structural)]
pub enum PixelAddChoice {
    RandomPixel,
    RandomRedShade,
    RandomBlueShade,
    RandomGreenShade,
    Black,
}

/// What is known of every pixel the chosen generator can produce: alpha is
/// always 255, and the shade generators fix the two unnamed channels at 0.
pub open spec fn generated_pixel(c: PixelAddChoice, p: Pixel) -> bool {
    match c {
        PixelAddChoice::RandomPixel => p.a == 255,
        PixelAddChoice::RandomRedShade => p.g == 0 && p.b == 0 && p.a == 255,
        PixelAddChoice::RandomBlueShade => p.r == 0 && p.g == 0 && p.a == 255,
        PixelAddChoice::RandomGreenShade => p.r == 0 && p.b == 0 && p.a == 255,
        PixelAddChoice::Black => p == (Pixel { r: 0, g: 0, b: 0, a: 255 }),
    }
}

/// Relies on rand's thread-local generator and `Rng::gen_range` over
/// `0..=255`: one uniformly random channel value.  Nothing can be promised
/// of the result beyond its type.
#[verifier::external_body]
fn random_channel() -> u8 {
    let mut rng = rand::thread_rng();
    rand::Rng::gen_range(&mut rng, 0..=255u8)
}

/// A pixel with all three colour channels uniformly random and alpha 255.
pub fn get_random_pixel() -> (p: Pixel)
    ensures
        p.a == 255,
        generated_pixel(PixelAddChoice::RandomPixel, p),
{
    Pixel { r: random_channel(), g: random_channel(), b: random_channel(), a: 255 }
}

/// A pixel with a uniformly random red channel, green and blue 0, alpha 255.
pub fn get_random_red_shade() -> (p: Pixel)
    ensures
        p.g == 0 && p.b == 0 && p.a == 255,
        generated_pixel(PixelAddChoice::RandomRedShade, p),
{
    Pixel { r: random_channel(), g: 0, b: 0, a: 255 }
}

/// A pixel with a uniformly random blue channel, red and green 0, alpha 255.
pub fn get_random_blue_shade() -> (p: Pixel)
    ensures
        p.r == 0 && p.g == 0 && p.a == 255,
        generated_pixel(PixelAddChoice::RandomBlueShade, p),
{
    Pixel { r: 0, g: 0, b: random_channel(), a: 255 }
}

/// A pixel with a uniformly random green channel, red and blue 0, alpha 255.
pub fn get_random_green_shade() -> (p: Pixel)
    ensures
        p.r == 0 && p.b == 0 && p.a == 255,
        generated_pixel(PixelAddChoice::RandomGreenShade, p),
{
    Pixel { r: 0, g: random_channel(), b: 0, a: 255 }
}

/// The opaque black pixel (0, 0, 0, 255); the one non-random generator.
pub fn get_black() -> (p: Pixel)
    ensures
        p == (Pixel { r: 0, g: 0, b: 0, a: 255 }),
        generated_pixel(PixelAddChoice::Black, p),
{
    Pixel { r: 0, g: 0, b: 0, a: 255 }
}

/// One replacement pixel from the chosen generator.
pub fn generate_pixel(c: &PixelAddChoice) -> (p: Pixel)
    ensures
        generated_pixel(*c, p),
{
    match c {
        PixelAddChoice::RandomPixel => get_random_pixel(),
        PixelAddChoice::RandomRedShade => get_random_red_shade(),
        PixelAddChoice::RandomBlueShade => get_random_blue_shade(),
        PixelAddChoice::RandomGreenShade => get_random_green_shade(),
        PixelAddChoice::Black => get_black(),
    }
}

} // verus!
