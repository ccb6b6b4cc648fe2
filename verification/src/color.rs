//! Colors for the spectrum display: packed RGB values.

use vstd::prelude::*;

verus! {

/// One RGB color.
#[derive(Clone, Copy, Debug, PartialEq, Eq, Structural)]
pub struct Color {
    pub r: u8,
    pub g: u8,
    pub b: u8,
}

impl Color {
    pub fn new(r: u8, g: u8, b: u8) -> (c: Color)
        ensures
            c == (Color { r, g, b }),
    {
        Color { r, g, b }
    }

    /// The color written as one hex number, `0xRRGGBB`; bits above the
    /// lowest twenty-four are ignored.
    pub fn hex(hex: u32) -> (c: Color)
        ensures
            c.r == (hex >> 16) & 0xff,
            c.g == (hex >> 8) & 0xff,
            c.b == hex & 0xff,
    {
        proof {
            assert(((hex >> 16) & 0xff) < 256 && ((hex >> 8) & 0xff) < 256 && (hex & 0xff) < 256)
                by (bit_vector);
        }
        Color::new(
            ((hex >> 16) & 0xff) as u8,
            ((hex >> 8) & 0xff) as u8,
            (hex & 0xff) as u8,
        )
    }

    /// The color packed back into one `0x00RRGGBB` number.
    pub fn to_u32(&self) -> (packed: u32)
        ensures
            packed == ((self.r as u32) << 16 | (self.g as u32) << 8 | (self.b as u32)),
            packed >> 16 == self.r,
            (packed >> 8) & 0xff == self.g,
            packed & 0xff == self.b,
    {
        let packed = (self.r as u32) << 16 | (self.g as u32) << 8 | self.b as u32;
        proof {
            let r = self.r;
            let g = self.g;
            let b = self.b;
            assert(((r as u32) << 16 | (g as u32) << 8 | (b as u32)) >> 16 == r && (((r as u32)
                << 16 | (g as u32) << 8 | (b as u32)) >> 8) & 0xff == g && ((r as u32) << 16 | (g
                as u32) << 8 | (b as u32)) & 0xff == b) by (bit_vector);
        }
        packed
    }
}

/// Packing a color parsed from a hex number gives back its low
/// twenty-four bits.
pub proof fn lemma_color_hex_round_trip(x: u32, c: Color, packed: u32)
    requires
        c.r == (x >> 16) & 0xff,
        c.g == (x >> 8) & 0xff,
        c.b == x & 0xff,
        packed == ((c.r as u32) << 16 | (c.g as u32) << 8 | (c.b as u32)),
    ensures
        packed == x & 0xffffff,
{
    let r = c.r;
    let g = c.g;
    let b = c.b;
    assert(r == (x >> 16) & 0xff && g == (x >> 8) & 0xff && b == x & 0xff ==> ((r as u32) << 16 | (
    g as u32) << 8 | (b as u32)) == x & 0xffffff) by (bit_vector);
}

} // verus!
