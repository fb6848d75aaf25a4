//! The box filter that shrinks a decoded image to one pixel per cell.
use vstd::prelude::*;
use vstd::arithmetic::div_mod::lemma_fundamental_div_mod_converse;
use vstd::arithmetic::mul::lemma_mul_upper_bound;
use crate::geometry::{
    center, center_of, lemma_center_in_image, kernel_radius, kernel_radius_of, lemma_kernel_size,
    lemma_out_height_bound, lemma_window_holds_center, out_height, out_width, output_height,
    output_width, window_hi, window_lo,
};

verus! {

/// Why a run of the program could not complete.
#[derive(Debug, Clone, Copy, PartialEq, Eq, Structural)]
pub enum ImcatError {
    /// The image bytes could not be decoded.
    DecodeFailure,
    /// Reading an input, asking the terminal, or writing the output failed.
    IoFailure,
    /// The background colour setting is not a number.
    ConfigFailure,
}

/// An image as the decoder hands it over: always four bytes per pixel, RGBA,
/// row after row; `channels` is how many the file itself held.
pub struct DecodedImage {
    pub width: i32,
    pub height: i32,
    pub channels: i32,
    pub pixels: Vec<u8>,
}

impl DecodedImage {
    pub open spec fn wf(&self) -> bool {
        &&& self.width >= 1
        &&& self.height >= 1
        &&& self.pixels@.len() == self.width * self.height * 4
    }

    /// Accepts what the decoder returned when it describes a non-empty RGBA
    /// image, and reports a decoding failure otherwise.
    pub fn new(width: i32, height: i32, channels: i32, pixels: Vec<u8>) -> (r: Result<
        DecodedImage,
        ImcatError,
    >)
        ensures
            r is Ok <==> (width >= 1 && height >= 1 && pixels@.len() == width * height * 4),
            r matches Ok(img) ==> img.wf() && img.width == width && img.height == height
                && img.channels == channels && img.pixels@ == pixels@,
            r matches Err(e) ==> e == ImcatError::DecodeFailure,
    {
        if width < 1 || height < 1 {
            return Err(ImcatError::DecodeFailure);
        }
        let w = width as usize;
        let h = height as usize;
        proof {
            lemma_mul_upper_bound(w as int, 0x7FFF_FFFF, h as int, 0x7FFF_FFFF);
        }
        let n: u64 = (w as u64) * (h as u64) * 4;
        if pixels.len() as u64 != n {
            return Err(ImcatError::DecodeFailure);
        }
        Ok(DecodedImage { width, height, channels, pixels })
    }
}

/// The image at one pixel per output cell, RGBA, row after row.
pub struct ResampledImage {
    pub outw: usize,
    pub outh: usize,
    pub pixels: Vec<u8>,
}

/// What the source pixel at `(x, y)` adds to channel `ch` of a sum: the
/// channel scaled by the pixel's own alpha.
pub open spec fn weighted(p: Seq<u8>, w: int, x: int, y: int, ch: int) -> int {
    let i = (y * w + x) * 4;
    (p[i + 3] as int) * (p[i + ch] as int) / 255
}

/// Sum of `weighted` over the columns `sx .. ex` of row `y`.
pub open spec fn row_sum(p: Seq<u8>, w: int, y: int, sx: int, ex: int, ch: int) -> int
    decreases ex - sx,
{
    if ex <= sx {
        0
    } else {
        row_sum(p, w, y, sx, ex - 1, ch) + weighted(p, w, ex - 1, y, ch)
    }
}

/// Sum of `weighted` over the rows `sy .. ey` and columns `sx .. ex`.
pub open spec fn box_sum(p: Seq<u8>, w: int, sy: int, ey: int, sx: int, ex: int, ch: int) -> int
    decreases ey - sy,
{
    if ey <= sy {
        0
    } else {
        box_sum(p, w, sy, ey - 1, sx, ex, ch) + row_sum(p, w, ey - 1, sx, ex, ch)
    }
}

/// Channel `ch` of output pixel `(x, y)`: the sum over its sampling window,
/// divided by the number of pixels in the window.
pub open spec fn sample(p: Seq<u8>, imw: int, imh: int, termw: int, x: int, y: int, ch: int) -> int {
    let r = kernel_radius(imw, termw);
    let cx = center(imw, termw, x);
    let cy = center(imw, termw, y);
    let sx = window_lo(cx, r);
    let ex = window_hi(cx, r, imw);
    let sy = window_lo(cy, r);
    let ey = window_hi(cy, r, imh);
    box_sum(p, imw, sy, ey, sx, ex, ch) / ((ex - sx) * (ey - sy))
}

/// Byte `i` of the resampled buffer.
pub open spec fn resampled_byte(p: Seq<u8>, imw: int, imh: int, termw: int, i: int) -> int {
    let k = i / 4;
    let w = out_width(imw, termw);
    sample(p, imw, imh, termw, k % w, k / w, i % 4)
}

/// The whole resampled buffer: `out_width * out_height` pixels of four bytes.
pub open spec fn resampled_pixels(p: Seq<u8>, imw: int, imh: int, termw: int) -> Seq<u8> {
    Seq::new(
        (out_width(imw, termw) * out_height(imw, imh, termw) * 4) as nat,
        |i: int| resampled_byte(p, imw, imh, termw, i) as u8,
    )
}

proof fn lemma_weighted_bound(a: u8, c: u8)
    ensures
        0 <= (a as int) * (c as int) / 255 <= 255,
{
    assert(0 <= (a as int) * (c as int) <= 255 * 255) by (nonlinear_arith)
        requires a <= 255, c <= 255;
}

/// Index `i` of a buffer of four bytes per pixel and `w` pixels per row
/// names pixel `(x, y)` and channel `ch`.
pub proof fn lemma_pixel_index(w: int, x: int, y: int, ch: int)
    requires
        0 <= x < w,
        0 <= y,
        0 <= ch < 4,
    ensures
        ((y * w + x) * 4 + ch) / 4 == y * w + x,
        ((y * w + x) * 4 + ch) % 4 == ch,
        (y * w + x) % w == x,
        (y * w + x) / w == y,
{
    lemma_fundamental_div_mod_converse((y * w + x) * 4 + ch, 4, y * w + x, ch);
    lemma_fundamental_div_mod_converse(y * w + x, w, y, x);
}

/// Every pixel of `p` has the RGBA colour `c`.
pub open spec fn uniform(p: Seq<u8>, c: Seq<u8>) -> bool {
    &&& c.len() == 4
    &&& forall|i: int| 0 <= i < p.len() ==> #[trigger] p[i] == c[i % 4]
}

proof fn lemma_row_sum_uniform(p: Seq<u8>, w: int, h: int, c: Seq<u8>, y: int, sx: int, ex: int, ch: int)
    requires
        uniform(p, c),
        p.len() == w * h * 4,
        0 <= y < h,
        0 <= sx <= ex <= w,
        0 <= ch < 4,
    ensures
        row_sum(p, w, y, sx, ex, ch) == (ex - sx) * ((c[3] as int) * (c[ch] as int) / 255),
    decreases ex - sx,
{
    if ex > sx {
        lemma_row_sum_uniform(p, w, h, c, y, sx, ex - 1, ch);
        let x = ex - 1;
        let i = (y * w + x) * 4;
        assert(i + 3 < w * h * 4 && 0 <= i) by (nonlinear_arith)
            requires 0 <= y < h, 0 <= x < w, i == (y * w + x) * 4;
        lemma_pixel_index(w, x, y, ch);
        lemma_pixel_index(w, x, y, 3);
        assert(p[i + 3] == c[3]);
        assert(p[i + ch] == c[ch]);
        assert((ex - 1 - sx) * ((c[3] as int) * (c[ch] as int) / 255) + (c[3] as int) * (
        c[ch] as int) / 255 == (ex - sx) * ((c[3] as int) * (c[ch] as int) / 255))
            by (nonlinear_arith);
    } else {
        let v = (c[3] as int) * (c[ch] as int) / 255;
        assert((ex - sx) * v == 0) by (nonlinear_arith)
            requires ex == sx;
    }
}

proof fn lemma_box_sum_uniform(
    p: Seq<u8>,
    w: int,
    h: int,
    c: Seq<u8>,
    sy: int,
    ey: int,
    sx: int,
    ex: int,
    ch: int,
)
    requires
        uniform(p, c),
        p.len() == w * h * 4,
        0 <= sy <= ey <= h,
        0 <= sx <= ex <= w,
        0 <= ch < 4,
    ensures
        box_sum(p, w, sy, ey, sx, ex, ch) == ((ex - sx) * (ey - sy)) * ((c[3] as int) * (
        c[ch] as int) / 255),
    decreases ey - sy,
{
    if ey > sy {
        lemma_box_sum_uniform(p, w, h, c, sy, ey - 1, sx, ex, ch);
        lemma_row_sum_uniform(p, w, h, c, ey - 1, sx, ex, ch);
        let v = (c[3] as int) * (c[ch] as int) / 255;
        assert(((ex - sx) * (ey - 1 - sy)) * v + (ex - sx) * v == ((ex - sx) * (ey - sy)) * v)
            by (nonlinear_arith);
    } else {
        let v = (c[3] as int) * (c[ch] as int) / 255;
        assert(((ex - sx) * (ey - sy)) * v == 0) by (nonlinear_arith)
            requires ey == sy;
    }
}

/// A source image of one colour everywhere comes out in that colour,
/// attenuated by its alpha: each byte of the output is
/// `alpha * channel / 255`, which for an opaque colour is the channel itself.
pub proof fn lemma_uniform_image(p: Seq<u8>, imw: int, imh: int, termw: int, c: Seq<u8>, i: int)
    requires
        imw >= 1,
        imh >= 1,
        termw >= 1,
        p.len() == imw * imh * 4,
        uniform(p, c),
        0 <= i < out_width(imw, termw) * out_height(imw, imh, termw) * 4,
    ensures
        resampled_byte(p, imw, imh, termw, i) == (c[3] as int) * (c[i % 4] as int) / 255,
        c[3] == 255 ==> resampled_byte(p, imw, imh, termw, i) == c[i % 4],
{
    let ow = out_width(imw, termw);
    let oh = out_height(imw, imh, termw);
    let k = i / 4;
    let x = k % ow;
    let y = k / ow;
    let ch = i % 4;
    assert(0 <= k < ow * oh) by (nonlinear_arith)
        requires 0 <= i < ow * oh * 4, k == i / 4;
    assert(0 <= x < ow && 0 <= y < oh) by (nonlinear_arith)
        requires 0 <= k < ow * oh, ow >= 1, x == k % ow, y == k / ow;
    lemma_window_holds_center(imw, imh, termw, x, y);
    let r = kernel_radius(imw, termw);
    let cx = center(imw, termw, x);
    let cy = center(imw, termw, y);
    let sx = window_lo(cx, r);
    let ex = window_hi(cx, r, imw);
    let sy = window_lo(cy, r);
    let ey = window_hi(cy, r, imh);
    lemma_box_sum_uniform(p, imw, imh, c, sy, ey, sx, ex, ch);
    let n = (ex - sx) * (ey - sy);
    let v = (c[3] as int) * (c[ch] as int) / 255;
    assert((n * v) / n == v) by (nonlinear_arith)
        requires n >= 1;
    assert(c[3] == 255 ==> v == c[ch]) by (nonlinear_arith)
        requires v == (c[3] as int) * (c[ch] as int) / 255;
}

fn sum_row(p: &Vec<u8>, w: usize, y: usize, sx: usize, ex: usize, ch: usize) -> (s: u128)
    requires
        sx <= ex <= w,
        ch < 4,
        (y * w + ex) * 4 <= p@.len(),
    ensures
        s == row_sum(p@, w as int, y as int, sx as int, ex as int, ch as int),
        s <= 255 * (ex - sx),
{
    let len = p.len();
    let base: usize = y * w;
    let mut s: u128 = 0;
    let mut x: usize = sx;
    while x < ex
        invariant
            len == p@.len(),
            sx <= x <= ex <= w,
            ch < 4,
            base == y * w,
            (y * w + ex) * 4 <= p@.len(),
            s == row_sum(p@, w as int, y as int, sx as int, x as int, ch as int),
            s <= 255 * (x - sx),
        decreases ex - x,
    {
        let i: usize = (base + x) * 4;
        let a = p[i + 3];
        let c = p[i + ch];
        proof {
            lemma_weighted_bound(a, c);
        }
        let v: u32 = (a as u32) * (c as u32) / 255;
        s = s + v as u128;
        x = x + 1;
    }
    s
}

fn sum_box(
    p: &Vec<u8>,
    w: usize,
    h: usize,
    sy: usize,
    ey: usize,
    sx: usize,
    ex: usize,
    ch: usize,
) -> (s: u128)
    requires
        sx <= ex <= w,
        sy <= ey <= h,
        ch < 4,
        p@.len() == w * h * 4,
    ensures
        s == box_sum(p@, w as int, sy as int, ey as int, sx as int, ex as int, ch as int),
        s <= 255 * ((ey - sy) * (ex - sx)),
{
    let len = p.len();
    let mut s: u128 = 0;
    let mut y: usize = sy;
    while y < ey
        invariant
            len == p@.len(),
            sx <= ex <= w,
            sy <= y <= ey <= h,
            ch < 4,
            p@.len() == w * h * 4,
            s == box_sum(p@, w as int, sy as int, y as int, sx as int, ex as int, ch as int),
            s <= 255 * ((y - sy) * (ex - sx)),
        decreases ey - y,
    {
        assert((y * w + ex) * 4 <= w * h * 4) by (nonlinear_arith)
            requires y < h, ex <= w;
        let r = sum_row(p, w, y, sx, ex, ch);
        assert(255 * ((y - sy) * (ex - sx)) + 255 * (ex - sx) == 255 * ((y + 1 - sy) * (
        ex - sx))) by (nonlinear_arith);
        proof {
            lemma_mul_upper_bound((y + 1 - sy) as int, h as int, (ex - sx) as int, w as int);
        }
        assert(h * w == w * h) by (nonlinear_arith);
        assert(255 * ((y + 1 - sy) * (ex - sx)) <= 255 * (w * h));
        assert(255 * (w * h) < 0x1_0000_0000_0000_0000_0000_0000_0000_0000);
        s = s + r;
        y = y + 1;
    }
    s
}

/// Shrinks `image` to `out_width` columns and `out_height` rows for a
/// terminal `termw` cells wide: each output pixel averages the
/// alpha-weighted channels of the box of source pixels around its center,
/// dividing with truncation by the number of pixels in the box.
pub fn resample(image: &DecodedImage, termw: i32, termh: i32) -> (r: ResampledImage)
    requires
        image.wf(),
        termw >= 1,
    ensures
        r.outw == out_width(image.width as int, termw as int),
        r.outh == out_height(image.width as int, image.height as int, termw as int),
        r.pixels@.len() == r.outw * r.outh * 4,
        r.pixels@ == resampled_pixels(
            image.pixels@,
            image.width as int,
            image.height as int,
            termw as int,
        ),
        forall|i: int|
            0 <= i < r.pixels@.len() ==> #[trigger] r.pixels@[i] == resampled_byte(
                image.pixels@,
                image.width as int,
                image.height as int,
                termw as int,
                i,
            ),
{
    let imw = image.width;
    let imh = image.height;
    let w = imw as usize;
    let h = imh as usize;
    let p = &image.pixels;
    let outw = output_width(imw, termw);
    let outh = output_height(imw, imh, termw);
    let rad = kernel_radius_of(imw, termw);
    proof {
        lemma_out_height_bound(imw as int, imh as int, termw as int);
        lemma_kernel_size(imw as int, termw as int);
    }
    let ghost spec_p = p@;
    let _len = p.len();
    let mut out: Vec<u8> = Vec::new();
    let mut y: usize = 0;
    while y < outh
        invariant
            image.wf(),
            termw >= 1,
            imw == image.width,
            imh == image.height,
            w == imw,
            h == imh,
            p@ == spec_p,
            spec_p == image.pixels@,
            spec_p.len() <= usize::MAX,
            outw == out_width(imw as int, termw as int),
            outh == out_height(imw as int, imh as int, termw as int),
            outh <= imh,
            rad == kernel_radius(imw as int, termw as int),
            y <= outh,
            out@.len() == y * outw * 4,
            forall|i: int|
                0 <= i < out@.len() ==> #[trigger] out@[i] == resampled_byte(
                    spec_p,
                    imw as int,
                    imh as int,
                    termw as int,
                    i,
                ),
        decreases outh - y,
    {
        proof {
            lemma_center_in_image(imw as int, imh as int, termw as int, 0, y as int);
        }
        let cy = center_of(imw, termw, y) as usize;
        let mut x: usize = 0;
        while x < outw
            invariant
                image.wf(),
                termw >= 1,
                imw == image.width,
                imh == image.height,
                w == imw,
                h == imh,
                p@ == spec_p,
                spec_p == image.pixels@,
                spec_p.len() <= usize::MAX,
            spec_p.len() <= usize::MAX,
                outw == out_width(imw as int, termw as int),
                outh == out_height(imw as int, imh as int, termw as int),
                outh <= imh,
                rad == kernel_radius(imw as int, termw as int),
                y < outh,
                cy == center(imw as int, termw as int, y as int),
                x <= outw,
                out@.len() == (y * outw + x) * 4,
                forall|i: int|
                    0 <= i < out@.len() ==> #[trigger] out@[i] == resampled_byte(
                        spec_p,
                        imw as int,
                        imh as int,
                        termw as int,
                        i,
                    ),
            decreases outw - x,
        {
            proof {
                lemma_window_holds_center(imw as int, imh as int, termw as int, x as int, y as int);
            }
            let cx = center_of(imw, termw, x) as usize;
            let sx: usize = if cx < rad { 0 } else { cx - rad };
            let ex: usize = if cx + rad >= w { w } else { cx + rad + 1 };
            let sy: usize = if cy < rad { 0 } else { cy - rad };
            let ey: usize = if cy + rad >= h { h } else { cy + rad + 1 };
            assert(sx == window_lo(cx as int, rad as int));
            assert(ex == window_hi(cx as int, rad as int, w as int));
            assert(sy == window_lo(cy as int, rad as int));
            assert(ey == window_hi(cy as int, rad as int, h as int));
            proof {
                lemma_mul_upper_bound((ex - sx) as int, w as int, (ey - sy) as int, h as int);
            }
            assert((ex - sx) * (ey - sy) <= w * h * 4) by (nonlinear_arith)
                requires (ex - sx) * (ey - sy) <= w * h;
            let n: usize = (ex - sx) * (ey - sy);
            let mut ch: usize = 0;
            while ch < 4
                invariant
                    image.wf(),
                    imw == image.width,
                    imh == image.height,
                    w == imw,
                    h == imh,
                    p@ == spec_p,
                    spec_p == image.pixels@,
                    spec_p.len() <= usize::MAX,
                spec_p.len() <= usize::MAX,
            spec_p.len() <= usize::MAX,
                    outw == out_width(imw as int, termw as int),
                    sx <= ex <= w,
                    sy <= ey <= h,
                    n == (ex - sx) * (ey - sy),
                    n >= 1,
                    x < outw,
                    ch <= 4,
                    sx == window_lo(center(imw as int, termw as int, x as int), kernel_radius(imw as int, termw as int)),
                    ex == window_hi(center(imw as int, termw as int, x as int), kernel_radius(imw as int, termw as int), imw as int),
                    sy == window_lo(center(imw as int, termw as int, y as int), kernel_radius(imw as int, termw as int)),
                    ey == window_hi(center(imw as int, termw as int, y as int), kernel_radius(imw as int, termw as int), imh as int),
                    out@.len() == (y * outw + x) * 4 + ch,
                    forall|i: int|
                        0 <= i < out@.len() ==> #[trigger] out@[i] == resampled_byte(
                            spec_p,
                            imw as int,
                            imh as int,
                            termw as int,
                            i,
                        ),
                decreases 4 - ch,
            {
                let s = sum_box(p, w, h, sy, ey, sx, ex, ch);
                let avg: u128 = s / (n as u128);
                assert(avg <= 255) by (nonlinear_arith)
                    requires avg == s / (n as u128), s <= 255 * n, n >= 1;
                proof {
                    lemma_pixel_index(outw as int, x as int, y as int, ch as int);
                }
                out.push(avg as u8);
                ch = ch + 1;
            }
            x = x + 1;
        }
        assert((y * outw + outw) * 4 == (y + 1) * outw * 4) by (nonlinear_arith);
        y = y + 1;
    }
    assert(outh * outw * 4 == outw * outh * 4) by (nonlinear_arith);
    assert(out@ =~= resampled_pixels(spec_p, imw as int, imh as int, termw as int));
    ResampledImage { outw, outh, pixels: out }
}

} // verus!
