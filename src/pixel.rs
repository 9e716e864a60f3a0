//! Colors of the texture.
use vstd::prelude::*;

verus! {

/// An RGB color.
#[derive(Clone, Copy, Debug, PartialEq, Eq, Structural)]
pub struct Pixel {
    pub r: u8,
    pub g: u8,
    pub b: u8,
}

/// The color of a cleared texture.
pub open spec fn background() -> Pixel {
    Pixel { r: 0x00, g: 0x00, b: 0x00 }
}

pub fn black() -> (p: Pixel)
    ensures
        p == background(),
{
    Pixel { r: 0x00, g: 0x00, b: 0x00 }
}

pub fn white() -> (p: Pixel)
    ensures
        p == (Pixel { r: 0xff, g: 0xff, b: 0xff }),
{
    Pixel { r: 0xff, g: 0xff, b: 0xff }
}

pub fn red() -> (p: Pixel)
    ensures
        p == (Pixel { r: 0xff, g: 0x00, b: 0x00 }),
{
    Pixel { r: 0xff, g: 0x00, b: 0x00 }
}

pub fn green() -> (p: Pixel)
    ensures
        p == (Pixel { r: 0x00, g: 0xff, b: 0x00 }),
{
    Pixel { r: 0x00, g: 0xff, b: 0x00 }
}

pub fn blue() -> (p: Pixel)
    ensures
        p == (Pixel { r: 0x00, g: 0x00, b: 0xff }),
{
    Pixel { r: 0x00, g: 0x00, b: 0xff }
}

/// The character that stands for a color of the given channel sum in text output.
pub open spec fn char_of_value(value: int) -> char {
    if value > 0x240 {
        'X'
    } else if value > 0x180 {
        'x'
    } else if value > 0x0c0 {
        '.'
    } else {
        ' '
    }
}

impl Pixel {
    /// The color packed in `raw`: red in the low byte, then green, then blue.
    pub fn from_raw(raw_val: u32) -> (p: Pixel)
        ensures
            p.r == raw_val % 256,
            p.g == (raw_val / 256) % 256,
            p.b == (raw_val / 65536) % 256,
    {
        let r = raw_val & 0xff;
        let g = (raw_val >> 8u32) & 0xff;
        let b = (raw_val >> 16u32) & 0xff;
        assert(r == raw_val % 256 && g == (raw_val / 256) % 256 && b == (raw_val / 65536) % 256)
            by (bit_vector)
            requires
                r == raw_val & 0xff,
                g == (raw_val >> 8u32) & 0xff,
                b == (raw_val >> 16u32) & 0xff,
        ;
        Pixel { r: r as u8, g: g as u8, b: b as u8 }
    }

    /// The sum of the three channels.
    pub open spec fn value(self) -> int {
        self.r + self.g + self.b
    }

    /// The character that stands for this color in text output, by brightness.
    pub fn as_char(&self) -> (c: char)
        ensures
            c == char_of_value(self.value()),
    {
        let value = self.r as u16 + self.g as u16 + self.b as u16;
        if value > 0x240 {
            'X'
        } else if value > 0x180 {
            'x'
        } else if value > 0x0c0 {
            '.'
        } else {
            ' '
        }
    }

    /// The channels with full opacity.
    pub fn as_rgba(&self) -> (c: (u8, u8, u8, u8))
        ensures
            c == (self.r, self.g, self.b, 0xffu8),
    {
        (self.r, self.g, self.b, 0xff)
    }

    /// The color packed as `0xAABBGGRR` with full opacity.
    pub fn as_u32(&self) -> (v: u32)
        ensures
            v == self.r + 256 * self.g + 65536 * self.b + 0xff00_0000,
    {
        let r = self.r as u32;
        let g = self.g as u32;
        let b = self.b as u32;
        let v = r | (g << 8u32) | (b << 16u32) | 0xff00_0000u32;
        assert(v == r + 256 * g + 65536 * b + 0xff00_0000) by (bit_vector)
            requires
                r < 256,
                g < 256,
                b < 256,
                v == r | (g << 8u32) | (b << 16u32) | 0xff00_0000u32,
        ;
        v
    }
}

} // verus!
