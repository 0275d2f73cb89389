//! Pixel arithmetic for drawing text into a canvas, and handing the canvas
//! to the compositor.
use vstd::prelude::*;
use crate::theme::Color;

verus! {

/// The canvas byte at `i` after converting RGBA pixels of `src` into BGRA
/// pixels over `dst`: the first `n` whole pixels are converted, the rest kept.
pub open spec fn bgra_byte(dst: Seq<u8>, src: Seq<u8>, n: int, i: int) -> u8 {
    if i < 4 * n {
        let p = i / 4;
        let j = i % 4;
        if j == 0 {
            src[4 * p + 2]
        } else if j == 1 {
            src[4 * p + 1]
        } else if j == 2 {
            src[4 * p]
        } else {
            src[4 * p + 3]
        }
    } else {
        dst[i]
    }
}

/// The number of whole pixels both buffers hold.
pub open spec fn common_pixels(dst_len: int, src_len: int) -> int {
    if dst_len / 4 <= src_len / 4 {
        dst_len / 4
    } else {
        src_len / 4
    }
}

/// Copies RGBA pixels into a BGRA canvas, pixel by pixel, as far as both go.
pub fn copy_rgba_to_bgra(dst: &mut [u8], src: &[u8])
    ensures
        final(dst)@.len() == old(dst)@.len(),
        forall|i: int|
            0 <= i < final(dst)@.len() ==> #[trigger] final(dst)@[i] == bgra_byte(
                old(dst)@,
                src@,
                common_pixels(old(dst)@.len() as int, src@.len() as int),
                i,
            ),
{
    let n = if dst.len() / 4 <= src.len() / 4 {
        dst.len() / 4
    } else {
        src.len() / 4
    };
    let ghost d0 = dst@;
    let total = dst.len();
    let mut p: usize = 0;
    while p < n
        invariant
            n == common_pixels(d0.len() as int, src@.len() as int),
            n * 4 <= d0.len(),
            n * 4 <= src@.len(),
            total == d0.len(),
            p <= n,
            dst@.len() == d0.len(),
            forall|i: int| 0 <= i < dst@.len() ==> #[trigger] dst@[i] == bgra_byte(d0, src@, p as int, i),
        decreases n - p,
    {
        let k = 4 * p;
        let b0 = src[k + 2];
        let b1 = src[k + 1];
        let b2 = src[k];
        let b3 = src[k + 3];
        dst[k] = b0;
        dst[k + 1] = b1;
        dst[k + 2] = b2;
        dst[k + 3] = b3;
        assert forall|i: int| 0 <= i < dst@.len() implies #[trigger] dst@[i] == bgra_byte(
            d0,
            src@,
            p + 1,
            i,
        ) by {
            if k <= i < k + 4 {
                assert(i / 4 == p);
            }
        }
        p = p + 1;
    }
}

/// The alpha of a glyph pixel: the color's alpha scaled by the glyph's coverage.
pub fn scale_alpha(alpha: u8, coverage: u8) -> (r: u8)
    ensures
        r as int == (alpha as int * coverage as int) / 255,
{
    proof {
        assert(alpha as int * coverage as int <= 255 * 255) by (nonlinear_arith)
            requires
                alpha <= 255,
                coverage <= 255,
        {
        }
    }
    ((alpha as u16 * coverage as u16) / 255) as u8
}

/// A channel of `src` drawn with alpha `a` over `dst`.
pub open spec fn blend_channel(src: u8, dst: u8, a: u8) -> int {
    (src as int * a as int + dst as int * (255 - a as int)) / 255
}

/// The alpha of a pixel after drawing alpha `a` over alpha `dst`.
pub open spec fn blend_alpha(dst: u8, a: u8) -> int {
    a as int + (dst as int * (255 - a as int)) / 255
}

/// The byte index of pixel `(x, y)` on a surface `surface_w` pixels wide.
pub open spec fn pixel_index(surface_w: u32, x: i32, y: i32) -> int {
    (y as int * surface_w as int + x as int) * 4
}

/// The canvas after drawing `color` at pixel `(x, y)`: nothing changes for a
/// transparent color, a negative coordinate, or a pixel whose four bytes are
/// not all inside the canvas; otherwise that pixel's channels are blended.
pub open spec fn blended(canvas: Seq<u8>, surface_w: u32, x: i32, y: i32, color: Color) -> Seq<u8> {
    let idx = pixel_index(surface_w, x, y);
    if color.a == 0 || x < 0 || y < 0 || idx + 3 >= canvas.len() {
        canvas
    } else {
        canvas.update(idx, blend_channel(color.r, canvas[idx], color.a) as u8).update(
            idx + 1,
            blend_channel(color.g, canvas[idx + 1], color.a) as u8,
        ).update(idx + 2, blend_channel(color.b, canvas[idx + 2], color.a) as u8).update(
            idx + 3,
            blend_alpha(canvas[idx + 3], color.a) as u8,
        )
    }
}

/// Draws `color` over pixel `(x, y)` of an RGBA canvas `surface_w` pixels wide.
pub fn blend_pixel_rgba(canvas: &mut [u8], surface_w: u32, x: i32, y: i32, color: Color)
    requires
        color.a == 0 || x < 0 || y < 0 || pixel_index(surface_w, x, y) <= u32::MAX,
    ensures
        final(canvas)@ == blended(old(canvas)@, surface_w, x, y, color),
{
    if color.a == 0 || x < 0 || y < 0 {
        return;
    }
    proof {
        assert(y as int * surface_w as int <= y as int * surface_w as int + x as int);
        assert((y as u32) as int * surface_w as int == y as int * surface_w as int);
    }
    let row = (y as u32) * surface_w;
    let idx = ((row + x as u32) * 4) as usize;
    if idx + 3 >= canvas.len() {
        return;
    }
    let dst_r = canvas[idx] as u16;
    let dst_g = canvas[idx + 1] as u16;
    let dst_b = canvas[idx + 2] as u16;
    let dst_a = canvas[idx + 3] as u16;
    let a = color.a as u16;
    let inv_a = 255 - a;
    proof {
        assert(color.r as int * a + dst_r * inv_a <= 255 * 255) by (nonlinear_arith)
            requires
                color.r <= 255,
                dst_r <= 255,
                a + inv_a == 255,
        {
        }
        assert(color.g as int * a + dst_g * inv_a <= 255 * 255) by (nonlinear_arith)
            requires
                color.g <= 255,
                dst_g <= 255,
                a + inv_a == 255,
        {
        }
        assert(color.b as int * a + dst_b * inv_a <= 255 * 255) by (nonlinear_arith)
            requires
                color.b <= 255,
                dst_b <= 255,
                a + inv_a == 255,
        {
        }
        assert(a + (dst_a * inv_a) / 255 <= 255) by (nonlinear_arith)
            requires
                dst_a <= 255,
                a + inv_a == 255,
        {
            assert(dst_a * inv_a <= 255 * inv_a);
        }
    }
    canvas[idx] = ((color.r as u16 * a + dst_r * inv_a) / 255) as u8;
    canvas[idx + 1] = ((color.g as u16 * a + dst_g * inv_a) / 255) as u8;
    canvas[idx + 2] = ((color.b as u16 * a + dst_b * inv_a) / 255) as u8;
    canvas[idx + 3] = (a + (dst_a * inv_a) / 255) as u8;
}

} // verus!
verus! {

/// A canvas of `width` x `height` RGBA pixels that glyphs are drawn into.
pub struct TextSurface<'a> {
    pub canvas: &'a mut [u8],
    pub width: u32,
    pub height: u32,
}

impl<'a> TextSurface<'a> {
    /// The surface over `canvas`, `width` x `height` pixels.
    pub fn new(canvas: &'a mut [u8], width: u32, height: u32) -> (r: Self)
        ensures
            r.width == width,
            r.height == height,
            r.canvas@ == old(canvas)@,
            final(canvas)@ == final(r.canvas)@,
    {
        TextSurface { canvas, width, height }
    }

    /// Draws one glyph pixel: `color` at `(px, py)` with its alpha scaled by
    /// the glyph's `coverage`; nothing without coverage or off the surface.
    pub fn plot(&mut self, px: i32, py: i32, color: Color, coverage: u8)
        requires
            old(self).width as int * old(self).height as int * 4 <= u32::MAX + 1,
        ensures
            final(self).width == old(self).width,
            final(self).height == old(self).height,
            final(self).canvas@ == if coverage == 0 || px < 0 || py < 0 || px >= old(self).width || py
                >= old(self).height {
                old(self).canvas@
            } else {
                blended(
                    old(self).canvas@,
                    old(self).width,
                    px,
                    py,
                    Color { a: ((color.a as int * coverage as int) / 255) as u8, ..color },
                )
            },
    {
        if coverage == 0 || px < 0 || py < 0 || px as i64 >= self.width as i64 || py as i64 >= self.height as i64 {
            return;
        }
        let a = scale_alpha(color.a, coverage);
        proof {
            let w = self.width as int;
            let h = self.height as int;
            assert((py as int * w + px as int) * 4 + 4 <= w * h * 4) by (nonlinear_arith)
                requires
                    0 <= px < w,
                    0 <= py < h,
            ;
        }
        blend_pixel_rgba(self.canvas, self.width, px, py, Color { a, ..color });
    }
}

} // verus!
