//! A deterministic image pixel-sort effect engine.
//!
//! Given a bitmap, a binary selection mask, a sort-key metric and an optional
//! pixel-injection policy, the engine reorders the masked pixels within each
//! scanline by the chosen key while leaving unmasked pixels untouched.

pub mod bitmap;
pub mod mask;
pub mod pixel;
pub mod pixel_generators;
pub mod sort_effect;
