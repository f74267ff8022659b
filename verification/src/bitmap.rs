//! The in-memory pixel model: RGBA pixels, row-major bitmaps and binary masks.

use vstd::prelude::*;

verus! {

/// One RGBA pixel with 8-bit channels.
#[derive(Clone, Copy, Debug, PartialEq, Eq, Structural)]
pub struct Pixel {
    pub r: u8,
    pub g: u8,
    pub b: u8,
    pub a: u8,
}

impl Pixel {
    pub fn new(r: u8, g: u8, b: u8, a: u8) -> (p: Pixel)
        ensures
            p == (Pixel { r, g, b, a }),
    {
        Pixel { r, g, b, a }
    }
}

/// A width x height grid of RGBA pixels in row-major order.
pub struct Bitmap {
    pub width: usize,
    pub height: usize,
    pub data: Vec<Pixel>,
}

impl Bitmap {
    /// The storage holds exactly one pixel per grid cell.
    pub open spec fn wf(self) -> bool {
        self.data@.len() == self.width as int * self.height as int
    }

    /// Row `y`, as a sequence of `width` pixels.
    pub open spec fn row(self, y: int) -> Seq<Pixel> {
        self.data@.subrange(y * self.width as int, y * self.width as int + self.width as int)
    }

    /// The pixel in column `x` of row `y`.
    pub open spec fn px(self, x: int, y: int) -> Pixel {
        self.data@[y * self.width as int + x]
    }

    /// Builds a bitmap from row-major pixel data; fails when the data length
    /// does not match the dimensions.
    pub fn new(width: usize, height: usize, data: Vec<Pixel>) -> (r: Option<Bitmap>)
        ensures
            match r {
                Some(b) => b.wf() && b.width == width && b.height == height && b.data@ == data@,
                None => data@.len() != width as int * height as int,
            },
    {
        let len = data.len();
        match width.checked_mul(height) {
            Some(n) => {
                if len == n {
                    Some(Bitmap { width, height, data })
                } else {
                    None
                }
            },
            None => None,
        }
    }
}

/// A width x height grid of single-channel selection values in row-major
/// order, restricted to 0 (pass through) and 255 (selected for sorting).
pub struct Mask {
    pub width: usize,
    pub height: usize,
    pub data: Vec<u8>,
}

impl Mask {
    /// One value per grid cell, each exactly 0 or 255.
    pub open spec fn wf(self) -> bool {
        &&& self.data@.len() == self.width as int * self.height as int
        &&& forall|i: int|
            0 <= i < self.data@.len() ==> self.data@[i] == 0 || self.data@[i] == 255
    }

    /// Row `y`, as a sequence of `width` selection values.
    pub open spec fn row(self, y: int) -> Seq<u8> {
        self.data@.subrange(y * self.width as int, y * self.width as int + self.width as int)
    }

    /// The selection value in column `x` of row `y`.
    pub open spec fn px(self, x: int, y: int) -> u8 {
        self.data@[y * self.width as int + x]
    }

    /// Builds a mask from row-major data; fails when the data length does not
    /// match the dimensions or a value is neither 0 nor 255.
    pub fn new(width: usize, height: usize, data: Vec<u8>) -> (r: Option<Mask>)
        ensures
            match r {
                Some(m) => m.wf() && m.width == width && m.height == height && m.data@ == data@,
                None => data@.len() != width as int * height as int || exists|i: int|
                    0 <= i < data@.len() && data@[i] != 0 && data@[i] != 255,
            },
    {
        let len = data.len();
        let dims_ok = match width.checked_mul(height) {
            Some(n) => len == n,
            None => false,
        };
        if !dims_ok {
            return None;
        }
        let mut i: usize = 0;
        while i < len
            invariant
                i <= len,
                len == data@.len(),
                forall|j: int| 0 <= j < i ==> data@[j] == 0 || data@[j] == 255,
            decreases len - i,
        {
            if data[i] != 0 && data[i] != 255 {
                return None;
            }
            i += 1;
        }
        Some(Mask { width, height, data })
    }
}

} // verus!
