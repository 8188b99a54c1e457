use vstd::prelude::*;

verus! {

/// One source pixel: four 8-bit channels, red, green, blue and alpha.
/// Only the first three take part in luma and color computation.
#[derive(Clone, Copy, PartialEq, Eq, Structural, Debug)]
pub struct Pixel {
    pub r: u8,
    pub g: u8,
    pub b: u8,
    pub a: u8,
}

/// A display color: red, green and blue bytes.
#[derive(Clone, Copy, PartialEq, Eq, Structural, Debug)]
pub struct Rgb {
    pub r: u8,
    pub g: u8,
    pub b: u8,
}

impl Pixel {
    /// The pixel with the given channels and an opaque alpha.
    pub fn opaque(r: u8, g: u8, b: u8) -> (p: Pixel)
        ensures
            p == (Pixel { r, g, b, a: 255u8 }),
    {
        Pixel { r, g, b, a: 255 }
    }
}

} // verus!
