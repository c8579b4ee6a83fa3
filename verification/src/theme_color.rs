//! Colors as the theme protocol carries them: a packed ARGB word on the
//! wire and in the style table, four channels everywhere else.

use vstd::prelude::*;

verus! {

/// One color, a byte per channel.
#[derive(PartialEq, Eq, Structural, Clone, Copy, Debug)]
pub struct RgbaColor {
    pub r: u8,
    pub g: u8,
    pub b: u8,
    pub a: u8,
}

/// The packed ARGB word of a color.
pub open spec fn spec_u32_from_color(c: RgbaColor) -> u32 {
    (c.a as u32 * 0x1000000 + c.r as u32 * 0x10000 + c.g as u32 * 0x100 + c.b as u32) as u32
}

/// Implodes a color's channels into one ARGB word.
pub fn u32_from_color(c: RgbaColor) -> (r: u32)
    ensures
        r == spec_u32_from_color(c),
{
    let a = c.a as u32;
    let red = c.r as u32;
    let g = c.g as u32;
    let b = c.b as u32;
    let packed = (a << 24u32) | (red << 16u32) | (g << 8u32) | b;
    proof {
        assert(packed == a * 0x1000000 + red * 0x10000 + g * 0x100 + b) by (bit_vector)
            requires
                a < 0x100 && red < 0x100 && g < 0x100 && b < 0x100 && packed == (a << 24u32) | (
                red << 16u32) | (g << 8u32) | b,
        ;
    }
    packed
}

/// Explodes an ARGB word into its channels.
pub fn color_from_u32(c: u32) -> (r: RgbaColor)
    ensures
        r.a == c / 0x1000000,
        r.r == (c / 0x10000) % 0x100,
        r.g == (c / 0x100) % 0x100,
        r.b == c % 0x100,
{
    let a = (c >> 24u32) as u8;
    let red = (c >> 16u32) as u8;
    let g = (c >> 8u32) as u8;
    let b = c as u8;
    proof {
        assert((c >> 24u32) as u8 == c / 0x1000000 && (c >> 16u32) as u8 == (c / 0x10000) % 0x100
            && (c >> 8u32) as u8 == (c / 0x100) % 0x100 && c as u8 == c % 0x100) by (bit_vector);
    }
    RgbaColor { r: red, g, b, a }
}

/// Imploding and exploding again gives the channels back: the packed word
/// carries the whole color.
pub proof fn lemma_color_round_trip(c: RgbaColor)
    ensures
        spec_u32_from_color(c) / 0x1000000 == c.a,
        (spec_u32_from_color(c) / 0x10000) % 0x100 == c.r,
        (spec_u32_from_color(c) / 0x100) % 0x100 == c.g,
        spec_u32_from_color(c) % 0x100 == c.b,
{
    let a = c.a as u32;
    let red = c.r as u32;
    let g = c.g as u32;
    let b = c.b as u32;
    assert((a * 0x1000000 + red * 0x10000 + g * 0x100 + b) as u32 / 0x1000000 == a && ((a
        * 0x1000000 + red * 0x10000 + g * 0x100 + b) as u32 / 0x10000) % 0x100 == red && ((a
        * 0x1000000 + red * 0x10000 + g * 0x100 + b) as u32 / 0x100) % 0x100 == g && (a * 0x1000000
        + red * 0x10000 + g * 0x100 + b) as u32 % 0x100 == b) by (bit_vector)
        requires
            a < 0x100 && red < 0x100 && g < 0x100 && b < 0x100,
    ;
}

} // verus!
