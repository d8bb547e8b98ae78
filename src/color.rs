use vstd::prelude::*;

verus! {

/// An RGB color with one byte per channel.
#[derive(Debug, Clone, Copy, PartialEq, Eq, Structural)]
pub struct Color {
    pub r: u8,
    pub g: u8,
    pub b: u8,
}

/// The value of `v` pinned into `[0, 255]`.
pub open spec fn clamp_spec(v: int) -> int {
    if v < 0 {
        0
    } else if v > 255 {
        255
    } else {
        v
    }
}

/// The packed `0xRRGGBB` value of three channels.
pub open spec fn hex_of(r: u8, g: u8, b: u8) -> int {
    r as int * 0x10000 + g as int * 0x100 + b as int
}

/// Byte `k` (0 the lowest, at most 3) of a 32-bit value.
pub open spec fn byte_of(hex: u32, k: nat) -> int {
    let d = if k == 0 {
        1int
    } else if k == 1 {
        0x100int
    } else if k == 2 {
        0x10000int
    } else {
        0x1000000int
    };
    (hex as int / d) % 256
}

/// The color packed in `0xRRGGBB` form in the low bytes of `hex`.
pub open spec fn color_of(hex: u32) -> Color {
    Color { r: byte_of(hex, 2) as u8, g: byte_of(hex, 1) as u8, b: byte_of(hex, 0) as u8 }
}

/// Saturating sum of two channels.
pub open spec fn sat_add(a: u8, b: u8) -> int {
    if a as int + b as int > 255 {
        255
    } else {
        a as int + b as int
    }
}

impl Color {
    /// A color from three integers, each clamped into `[0, 255]`.
    pub fn new(r: i32, g: i32, b: i32) -> (c: Color)
        ensures
            c.r as int == clamp_spec(r as int),
            c.g as int == clamp_spec(g as int),
            c.b as int == clamp_spec(b as int),
    {
        Color { r: Self::clamp(r), g: Self::clamp(g), b: Self::clamp(b) }
    }

    pub fn clamp(value: i32) -> (r: u8)
        ensures
            r as int == clamp_spec(value as int),
    {
        if value < 0 {
            0
        } else if value > 255 {
            255
        } else {
            value as u8
        }
    }

    /// A color from a packed `0xRRGGBB` value; the top byte is ignored.
    pub fn from_hex(hex: u32) -> (c: Color)
        ensures
            c.r as int == byte_of(hex, 2),
            c.g as int == byte_of(hex, 1),
            c.b as int == byte_of(hex, 0),
            c == color_of(hex),
    {
        let r32 = (hex >> 16u32) & 0xFFu32;
        let g32 = (hex >> 8u32) & 0xFFu32;
        let b32 = hex & 0xFFu32;
        proof {
            assert((hex >> 16u32) & 0xFFu32 == (hex / 0x10000u32) % 256u32) by (bit_vector);
            assert((hex >> 8u32) & 0xFFu32 == (hex / 0x100u32) % 256u32) by (bit_vector);
            assert(hex & 0xFFu32 == hex % 256u32) by (bit_vector);
        }
        Color { r: r32 as u8, g: g32 as u8, b: b32 as u8 }
    }

    /// The packed `0xRRGGBB` value of the color.
    pub fn to_hex(&self) -> (h: u32)
        ensures
            h as int == hex_of(self.r, self.g, self.b),
    {
        let r = self.r as u32;
        let g = self.g as u32;
        let b = self.b as u32;
        proof {
            assert(r < 256 && g < 256 && b < 256);
            assert(r < 256u32 && g < 256u32 && b < 256u32 ==> ((r << 16u32) | (g << 8u32)) | b
                == r * 0x10000 + g * 0x100 + b) by (bit_vector);
        }
        ((r << 16u32) | (g << 8u32)) | b
    }

    /// Channel-wise saturating sum.
    pub fn saturating_add(self, other: Color) -> (c: Color)
        ensures
            c.r as int == sat_add(self.r, other.r),
            c.g as int == sat_add(self.g, other.g),
            c.b as int == sat_add(self.b, other.b),
    {
        Color {
            r: self.r.saturating_add(other.r),
            g: self.g.saturating_add(other.g),
            b: self.b.saturating_add(other.b),
        }
    }
}

impl From<u32> for Color {
    fn from(hex: u32) -> (c: Color) {
        Color::from_hex(hex)
    }
}

impl vstd::std_specs::convert::FromSpecImpl<u32> for Color {
    open spec fn obeys_from_spec() -> bool {
        true
    }

    open spec fn from_spec(hex: u32) -> Color {
        color_of(hex)
    }
}

impl core::ops::Add for Color {
    type Output = Color;

    fn add(self, other: Color) -> (c: Color) {
        self.saturating_add(other)
    }
}

impl vstd::std_specs::ops::AddSpecImpl for Color {
    open spec fn obeys_add_spec() -> bool {
        true
    }

    open spec fn add_req(self, other: Color) -> bool {
        true
    }

    open spec fn add_spec(self, other: Color) -> Color {
        Color {
            r: sat_add(self.r, other.r) as u8,
            g: sat_add(self.g, other.g) as u8,
            b: sat_add(self.b, other.b) as u8,
        }
    }
}

} // verus!
