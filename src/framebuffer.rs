use vstd::prelude::*;
use crate::color::{Color, color_of, hex_of};
use crate::texture::{MAX_TEXTURE, Texture};

verus! {

/// Largest side of a framebuffer, in pixels.
pub const MAX_SCREEN: usize = 0x4000;

/// A fixed-size surface of packed `0xRRGGBB` pixels, stored row by row.
pub struct Framebuffer {
    pub width: usize,
    pub height: usize,
    pub buffer: Vec<u32>,
}

/// The packed value of a color.
pub open spec fn packed(c: Color) -> u32 {
    hex_of(c.r, c.g, c.b) as u32
}

impl Framebuffer {
    pub open spec fn wf(&self) -> bool {
        &&& self.width <= MAX_SCREEN
        &&& self.height <= MAX_SCREEN
        &&& self.buffer@.len() == self.width * self.height
    }

    /// Index of pixel `(x, y)` in the buffer.
    pub open spec fn index(&self, x: int, y: int) -> int {
        y * self.width + x
    }

    /// The pixel at `(x, y)`.
    pub open spec fn pixel(&self, x: int, y: int) -> u32 {
        self.buffer@[self.index(x, y)]
    }

    pub open spec fn in_bounds(&self, x: int, y: int) -> bool {
        0 <= x < self.width && 0 <= y < self.height
    }

    /// A black framebuffer of the given size.
    pub fn new(width: usize, height: usize) -> (fb: Framebuffer)
        requires
            width <= MAX_SCREEN,
            height <= MAX_SCREEN,
        ensures
            fb.wf(),
            fb.width == width,
            fb.height == height,
            forall|i: int| 0 <= i < fb.buffer@.len() ==> fb.buffer@[i] == 0,
    {
        assert(width * height <= MAX_SCREEN * MAX_SCREEN) by (nonlinear_arith)
            requires width <= MAX_SCREEN, height <= MAX_SCREEN;
        let n = width * height;
        let mut buffer: Vec<u32> = Vec::with_capacity(n);
        let mut i: usize = 0;
        while i < n
            invariant
                i <= n,
                buffer@.len() == i,
                forall|k: int| 0 <= k < i ==> buffer@[k] == 0,
            decreases n - i,
        {
            buffer.push(0);
            i += 1;
        }
        Framebuffer { width, height, buffer }
    }

    /// Paints every pixel black.
    pub fn clear(&mut self)
        requires
            old(self).wf(),
        ensures
            final(self).wf(),
            final(self).width == old(self).width,
            final(self).height == old(self).height,
            forall|i: int| 0 <= i < final(self).buffer@.len() ==> final(self).buffer@[i] == 0,
    {
        let n = self.buffer.len();
        let mut i: usize = 0;
        while i < n
            invariant
                i <= n,
                n == self.buffer@.len(),
                self.wf(),
                self.width == old(self).width,
                self.height == old(self).height,
                forall|k: int| 0 <= k < i ==> self.buffer@[k] == 0,
            decreases n - i,
        {
            self.buffer.set(i, 0);
            i += 1;
        }
    }

    /// Paints pixel `(x, y)`; a point outside the surface is ignored.
    pub fn point_with_color(&mut self, x: usize, y: usize, color: Color)
        requires
            old(self).wf(),
        ensures
            final(self).wf(),
            final(self).width == old(self).width,
            final(self).height == old(self).height,
            final(self).buffer@ == if old(self).in_bounds(x as int, y as int) {
                old(self).buffer@.update(old(self).index(x as int, y as int), packed(color))
            } else {
                old(self).buffer@
            },
    {
        if x < self.width && y < self.height {
            proof {
                assert(y * self.width + x < self.width * self.height) by (nonlinear_arith)
                    requires x < self.width, y < self.height;
            }
            let _n = self.buffer.len();
            let idx = y * self.width + x;
            let hex = color.to_hex();
            self.buffer.set(idx, hex);
        }
    }

    /// Paints the part of the rectangle `[x, x + w) × [y, y + h)` that lies
    /// on the surface.
    pub fn draw_rectangle(&mut self, x: usize, y: usize, w: usize, h: usize, color: Color)
        requires
            old(self).wf(),
            x + w <= usize::MAX,
            y + h <= usize::MAX,
        ensures
            final(self).wf(),
            final(self).width == old(self).width,
            final(self).height == old(self).height,
            forall|px: int, py: int|
                #![trigger final(self).pixel(px, py)]
                old(self).in_bounds(px, py) ==> final(self).pixel(px, py) == if x <= px < x + w && y
                    <= py < y + h {
                    packed(color)
                } else {
                    old(self).pixel(px, py)
                },
    {
        let x_end = if x + w < self.width { x + w } else { self.width };
        let y_end = if y + h < self.height { y + h } else { self.height };
        let mut py = y;
        while py < y_end
            invariant
                self.wf(),
                self.width == old(self).width,
                self.height == old(self).height,
                y <= py,
                py <= y_end || py == y,
                y_end <= self.height,
                x_end <= self.width,
                x_end == if x + w < self.width { x + w } else { self.width as int },
                y_end == if y + h < self.height { y + h } else { self.height as int },
                forall|qx: int, qy: int|
                    #![trigger self.pixel(qx, qy)]
                    old(self).in_bounds(qx, qy) ==> self.pixel(qx, qy) == if x <= qx < x + w && y
                        <= qy < py {
                        packed(color)
                    } else {
                        old(self).pixel(qx, qy)
                    },
            decreases y_end - py,
        {
            let mut px = x;
            while px < x_end
                invariant
                    self.wf(),
                    self.width == old(self).width,
                    self.height == old(self).height,
                    y <= py < y_end,
                    x <= px,
                    px <= x_end || px == x,
                    y_end <= self.height,
                    x_end <= self.width,
                    x_end == if x + w < self.width { x + w } else { self.width as int },
                    forall|qx: int, qy: int|
                        #![trigger self.pixel(qx, qy)]
                        old(self).in_bounds(qx, qy) ==> self.pixel(qx, qy) == if (x <= qx < x + w
                            && y <= qy < py) || (qy == py && x <= qx < px) {
                            packed(color)
                        } else {
                            old(self).pixel(qx, qy)
                        },
                decreases x_end - px,
            {
                let ghost before = *self;
                self.point_with_color(px, py, color);
                proof {
                    assert forall|qx: int, qy: int|
                        #![trigger self.pixel(qx, qy)]
                        old(self).in_bounds(qx, qy) implies self.pixel(qx, qy) == if (x <= qx < x
                            + w && y <= qy < py) || (qy == py && x <= qx < px + 1) {
                            packed(color)
                        } else {
                            old(self).pixel(qx, qy)
                        } by {
                        lemma_index_distinct(
                            self.width as int,
                            self.height as int,
                            qx,
                            qy,
                            px as int,
                            py as int,
                        );
                        lemma_index_distinct(
                            self.width as int,
                            self.height as int,
                            px as int,
                            py as int,
                            qx,
                            qy,
                        );
                        assert(before.in_bounds(px as int, py as int));
                        assert(self.buffer@ == before.buffer@.update(
                            before.index(px as int, py as int),
                            packed(color),
                        ));
                        assert(self.pixel(qx, qy) == self.buffer@[self.index(qx, qy)]);
                        assert(before.pixel(qx, qy) == before.buffer@[before.index(qx, qy)]);
                        if qx == px && qy == py {
                            assert(self.pixel(qx, qy) == packed(color));
                        } else {
                            assert(self.pixel(qx, qy) == before.pixel(qx, qy));
                            assert(old(self).in_bounds(qx, qy));
                            assert(before.pixel(qx, qy) == if (x <= qx < x + w && y <= qy < py) || (qy
                                == py && x <= qx < px) {
                                packed(color)
                            } else {
                                old(self).pixel(qx, qy)
                            });
                        }
                    }
                }
                px += 1;
            }
            assert forall|qx: int, qy: int|
                #![trigger self.pixel(qx, qy)]
                old(self).in_bounds(qx, qy) implies self.pixel(qx, qy) == if x <= qx < x + w && y
                    <= qy < py + 1 {
                    packed(color)
                } else {
                    old(self).pixel(qx, qy)
                } by {
                if qy == py && x <= qx {
                    assert(qx < px <==> qx < x + w);
                }
            }
            py += 1;
        }
        assert forall|qx: int, qy: int|
            #![trigger self.pixel(qx, qy)]
            old(self).in_bounds(qx, qy) implies self.pixel(qx, qy) == if x <= qx < x + w && y <= qy
                < y + h {
                packed(color)
            } else {
                old(self).pixel(qx, qy)
            } by {
            if y <= qy {
                assert(qy < py <==> qy < y + h);
            }
        }
    }

    /// The pixels, row by row.
    pub fn to_u32_buffer(&self) -> (r: Vec<u32>)
        ensures
            r@ == self.buffer@,
    {
        let mut r: Vec<u32> = Vec::with_capacity(self.buffer.len());
        let mut i: usize = 0;
        while i < self.buffer.len()
            invariant
                i <= self.buffer@.len(),
                r@ == self.buffer@.subrange(0, i as int),
            decreases self.buffer@.len() - i,
        {
            r.push(self.buffer[i]);
            i += 1;
            assert(r@ =~= self.buffer@.subrange(0, i as int));
        }
        assert(r@ =~= self.buffer@);
        r
    }
}

/// Pure black, the color that a transparent texel holds.
pub open spec fn is_black(v: u32) -> bool {
    color_of(v) == (Color { r: 0, g: 0, b: 0 })
}

/// The texel that pixel `(px, py)` shows of texture `t` scaled to `ew × eh`
/// pixels with its top-left corner at `(x0, y0)` (nearest neighbour).
pub open spec fn scaled_texel(t: &Texture, x0: int, y0: int, ew: int, eh: int, px: int, py: int) -> u32 {
    t.texel((px - x0) * t.width / ew, (py - y0) * t.height / eh)
}

impl Framebuffer {
    /// Paints the pixels of `[x0, x_end) × [y0, y_end)` with texture `t`
    /// scaled to `ew × eh` pixels from `(x0, y0)`; with `skip_black`, black
    /// texels leave the pixel as it was.
    pub fn blit_scaled(
        &mut self,
        t: &Texture,
        x0: usize,
        y0: usize,
        x_end: usize,
        y_end: usize,
        ew: usize,
        eh: usize,
        skip_black: bool,
    )
        requires
            old(self).wf(),
            t.wf(),
            0 < ew,
            0 < eh,
            x_end <= old(self).width,
            y_end <= old(self).height,
        ensures
            final(self).wf(),
            final(self).width == old(self).width,
            final(self).height == old(self).height,
            forall|px: int, py: int|
                #![trigger final(self).pixel(px, py)]
                old(self).in_bounds(px, py) ==> final(self).pixel(px, py) == ({
                    let v = scaled_texel(t, x0 as int, y0 as int, ew as int, eh as int, px, py);
                    if x0 <= px < x_end && y0 <= py < y_end && !(skip_black && is_black(v)) {
                        packed(color_of(v))
                    } else {
                        old(self).pixel(px, py)
                    }
                }),
    {
        let tw = t.width as usize;
        let th = t.height as usize;
        let mut py = y0;
        while py < y_end
            invariant
                self.wf(),
                t.wf(),
                tw == t.width,
                th == t.height,
                0 < ew,
                0 < eh,
                self.width == old(self).width,
                self.height == old(self).height,
                x_end <= self.width,
                y_end <= self.height,
                y0 <= py,
                py <= y_end || py == y0,
                forall|qx: int, qy: int|
                    #![trigger self.pixel(qx, qy)]
                    old(self).in_bounds(qx, qy) ==> self.pixel(qx, qy) == ({
                        let v = scaled_texel(t, x0 as int, y0 as int, ew as int, eh as int, qx, qy);
                        if x0 <= qx < x_end && y0 <= qy < py && !(skip_black && is_black(v)) {
                            packed(color_of(v))
                        } else {
                            old(self).pixel(qx, qy)
                        }
                    }),
            decreases y_end - py,
        {
            let mut px = x0;
            while px < x_end
                invariant
                    self.wf(),
                    t.wf(),
                    tw == t.width,
                    th == t.height,
                    0 < ew,
                    0 < eh,
                    self.width == old(self).width,
                    self.height == old(self).height,
                    x_end <= self.width,
                    y_end <= self.height,
                    y0 <= py < y_end,
                    x0 <= px,
                    px <= x_end || px == x0,
                    forall|qx: int, qy: int|
                        #![trigger self.pixel(qx, qy)]
                        old(self).in_bounds(qx, qy) ==> self.pixel(qx, qy) == ({
                            let v = scaled_texel(
                                t,
                                x0 as int,
                                y0 as int,
                                ew as int,
                                eh as int,
                                qx,
                                qy,
                            );
                            if ((x0 <= qx < x_end && y0 <= qy < py) || (qy == py && x0 <= qx < px))
                                && !(skip_black && is_black(v)) {
                                packed(color_of(v))
                            } else {
                                old(self).pixel(qx, qy)
                            }
                        }),
                decreases x_end - px,
            {
                let ghost before = *self;
                assert((px - x0) * tw <= MAX_SCREEN * MAX_TEXTURE) by (nonlinear_arith)
                    requires px - x0 <= MAX_SCREEN, tw <= MAX_TEXTURE;
                assert((py - y0) * th <= MAX_SCREEN * MAX_TEXTURE) by (nonlinear_arith)
                    requires py - y0 <= MAX_SCREEN, th <= MAX_TEXTURE;
                let tx = (px - x0) * tw / ew;
                let ty = (py - y0) * th / eh;
                let color = t.get_pixel(tx, ty);
                let black = color.r == 0 && color.g == 0 && color.b == 0;
                if !(skip_black && black) {
                    self.point_with_color(px, py, color);
                }
                proof {
                    let v = scaled_texel(t, x0 as int, y0 as int, ew as int, eh as int, px as int, py as int);
                    assert(color == color_of(v));
                    assert(black == is_black(v));
                    assert forall|qx: int, qy: int|
                        #![trigger self.pixel(qx, qy)]
                        old(self).in_bounds(qx, qy) implies self.pixel(qx, qy) == ({
                            let w = scaled_texel(
                                t,
                                x0 as int,
                                y0 as int,
                                ew as int,
                                eh as int,
                                qx,
                                qy,
                            );
                            if ((x0 <= qx < x_end && y0 <= qy < py) || (qy == py && x0 <= qx < px
                                + 1)) && !(skip_black && is_black(w)) {
                                packed(color_of(w))
                            } else {
                                old(self).pixel(qx, qy)
                            }
                        }) by {
                        lemma_index_distinct(
                            self.width as int,
                            self.height as int,
                            qx,
                            qy,
                            px as int,
                            py as int,
                        );
                        lemma_index_distinct(
                            self.width as int,
                            self.height as int,
                            px as int,
                            py as int,
                            qx,
                            qy,
                        );
                        assert(self.pixel(qx, qy) == self.buffer@[self.index(qx, qy)]);
                        assert(before.pixel(qx, qy) == before.buffer@[before.index(qx, qy)]);
                    }
                }
                px += 1;
            }
            assert forall|qx: int, qy: int|
                #![trigger self.pixel(qx, qy)]
                old(self).in_bounds(qx, qy) implies self.pixel(qx, qy) == ({
                    let v = scaled_texel(t, x0 as int, y0 as int, ew as int, eh as int, qx, qy);
                    if x0 <= qx < x_end && y0 <= qy < py + 1 && !(skip_black && is_black(v)) {
                        packed(color_of(v))
                    } else {
                        old(self).pixel(qx, qy)
                    }
                }) by {
                if qy == py && x0 <= qx {
                    assert(qx < px <==> qx < x_end);
                }
            }
            py += 1;
        }
        assert forall|qx: int, qy: int|
            #![trigger self.pixel(qx, qy)]
            old(self).in_bounds(qx, qy) implies self.pixel(qx, qy) == ({
                let v = scaled_texel(t, x0 as int, y0 as int, ew as int, eh as int, qx, qy);
                if x0 <= qx < x_end && y0 <= qy < y_end && !(skip_black && is_black(v)) {
                    packed(color_of(v))
                } else {
                    old(self).pixel(qx, qy)
                }
            }) by {
            if y0 <= qy {
                assert(qy < py <==> qy < y_end);
            }
        }
    }
}

/// Distinct points of a `w × h` surface have distinct indices, and each index
/// lies in the buffer.
pub proof fn lemma_index_distinct(w: int, h: int, x1: int, y1: int, x2: int, y2: int)
    requires
        0 <= x1 < w,
        0 <= y1 < h,
        0 <= x2 < w,
        0 <= y2 < h,
    ensures
        0 <= y1 * w + x1 < w * h,
        (y1 * w + x1 == y2 * w + x2) <==> (x1 == x2 && y1 == y2),
{
    assert(0 <= y1 * w + x1 < w * h) by (nonlinear_arith)
        requires 0 <= x1 < w, 0 <= y1 < h;
    if y1 * w + x1 == y2 * w + x2 {
        if y1 < y2 {
            assert(y1 * w + x1 < y2 * w + x2) by (nonlinear_arith)
                requires y1 < y2, 0 <= x1 < w, 0 <= x2;
        } else if y2 < y1 {
            assert(y2 * w + x2 < y1 * w + x1) by (nonlinear_arith)
                requires y2 < y1, 0 <= x2 < w, 0 <= x1;
        }
    }
}

} // verus!
