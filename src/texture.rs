use vstd::prelude::*;
use crate::color::{Color, color_of};

verus! {

/// Largest side of a texture, in texels.
pub const MAX_TEXTURE: u32 = 0x8000;

/// An immutable image of packed `0xRRGGBB` texels, stored row by row.
pub struct Texture {
    pub width: u32,
    pub height: u32,
    pub pixels: Vec<u32>,
}

/// `v` pinned to at most `hi`.
pub open spec fn min_spec(v: int, hi: int) -> int {
    if v < hi {
        v
    } else {
        hi
    }
}

impl Texture {
    pub open spec fn wf(&self) -> bool {
        &&& 0 < self.width <= MAX_TEXTURE
        &&& 0 < self.height <= MAX_TEXTURE
        &&& self.pixels@.len() == self.width * self.height
    }

    /// The texel at `(x, y)`, each coordinate clamped to the last column or row.
    pub open spec fn texel(&self, x: int, y: int) -> u32 {
        let cx = min_spec(x, self.width - 1);
        let cy = min_spec(y, self.height - 1);
        self.pixels@[cy * self.width + cx]
    }

    /// A texture of the given size; `None` unless both sides lie in
    /// `(0, MAX_TEXTURE]` and there is one texel per position.
    pub fn from_pixels(width: u32, height: u32, pixels: Vec<u32>) -> (r: Option<Texture>)
        ensures
            r is Some <==> (0 < width <= MAX_TEXTURE && 0 < height <= MAX_TEXTURE && pixels@.len()
                == width * height),
            r matches Some(t) ==> t.wf() && t.width == width && t.height == height && t.pixels@
                == pixels@,
    {
        if width == 0 || height == 0 || width > MAX_TEXTURE || height > MAX_TEXTURE {
            return None;
        }
        let w = width as u64;
        let h = height as u64;
        assert(w * h <= u32::MAX * u32::MAX) by (nonlinear_arith)
            requires w <= u32::MAX, h <= u32::MAX;
        if pixels.len() as u64 != w * h {
            return None;
        }
        Some(Texture { width, height, pixels })
    }

    /// The color at `(x, y)`; coordinates past the last column or row are
    /// clamped to it.
    pub fn get_pixel(&self, x: usize, y: usize) -> (c: Color)
        requires
            self.wf(),
        ensures
            c == color_of(self.texel(x as int, y as int)),
    {
        let w = self.width as usize;
        let h = self.height as usize;
        let cx = if x < w - 1 { x } else { w - 1 };
        let cy = if y < h - 1 { y } else { h - 1 };
        assert(cy * w + cx < w * h) by (nonlinear_arith)
            requires cx < w, cy < h;
        let _n = self.pixels.len();
        Color::from_hex(self.pixels[cy * w + cx])
    }
}

} // verus!
