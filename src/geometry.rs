//! Sizes and sampling windows that map a source image onto the cell grid.
use vstd::prelude::*;
use vstd::arithmetic::div_mod::lemma_fundamental_div_mod_converse;
use vstd::arithmetic::mul::lemma_mul_upper_bound;

verus! {

/// `a / b` rounded to the nearest integer, halves away from zero.
pub open spec fn round_div(a: int, b: int) -> int {
    (2 * a + b) / (2 * b)
}

/// Number of output columns: one per terminal column, never more than the
/// image has.
pub open spec fn out_width(imw: int, termw: int) -> int {
    if imw < termw { imw } else { termw }
}

/// Number of output pixel rows: the output width scaled by the image's
/// height-to-width ratio.
pub open spec fn out_height(imw: int, imh: int, termw: int) -> int {
    round_div(out_width(imw, termw) * imh, imw)
}

/// Source coordinate at the center of output coordinate `v`: `v` times the
/// number of source pixels per cell, which is `imw / termw` but at least one.
pub open spec fn center(imw: int, termw: int, v: int) -> int {
    if imw > termw { round_div(imw * v, termw) } else { v }
}

/// Width of the box filter: the whole number of source pixels per cell,
/// made odd by taking one off an even count.
pub open spec fn kernel_size(imw: int, termw: int) -> int {
    let k = if imw > termw { imw / termw } else { 1 };
    if k % 2 == 0 { k - 1 } else { k }
}

pub open spec fn kernel_radius(imw: int, termw: int) -> int {
    (kernel_size(imw, termw) - 1) / 2
}

/// First source coordinate of the window around `c`.
pub open spec fn window_lo(c: int, r: int) -> int {
    if c - r < 0 { 0 } else { c - r }
}

/// One past the last source coordinate of the window around `c`, in an
/// axis of `dim` pixels.
pub open spec fn window_hi(c: int, r: int, dim: int) -> int {
    if c + r >= dim { dim } else { c + r + 1 }
}

proof fn lemma_round_div_exact(a: int, b: int)
    requires
        a >= 1,
        b >= 0,
    ensures
        round_div(a * b, a) == b,
{
    assert(2 * (a * b) + a == b * (2 * a) + a) by (nonlinear_arith);
    lemma_fundamental_div_mod_converse(2 * (a * b) + a, 2 * a, b, a);
}

/// Output width and height are the formulas of the grid, and on an image
/// that is not too flat for one row (twice its height times the output width
/// reaches its width), both are at least one.
pub proof fn lemma_output_size(imw: int, imh: int, termw: int)
    requires
        imw >= 1,
        imh >= 1,
        termw >= 1,
        2 * out_width(imw, termw) * imh >= imw,
    ensures
        out_width(imw, termw) == if imw < termw { imw } else { termw },
        out_height(imw, imh, termw) == round_div(out_width(imw, termw) * imh, imw),
        out_width(imw, termw) >= 1,
        out_height(imw, imh, termw) >= 1,
{
    let w = out_width(imw, termw);
    assert(2 * (w * imh) + imw >= 2 * imw) by (nonlinear_arith)
        requires 2 * w * imh >= imw;
    assert((2 * (w * imh) + imw) / (2 * imw) >= (2 * imw) / (2 * imw)) by (nonlinear_arith)
        requires 2 * (w * imh) + imw >= 2 * imw, imw >= 1;
}

/// The output height never exceeds the image height.
pub proof fn lemma_out_height_bound(imw: int, imh: int, termw: int)
    requires
        imw >= 1,
        imh >= 1,
        termw >= 1,
    ensures
        0 <= out_height(imw, imh, termw) <= imh,
        imw <= termw ==> out_height(imw, imh, termw) == imh,
{
    let w = out_width(imw, termw);
    if imw <= termw {
        lemma_round_div_exact(imw, imh);
        assert(w * imh == imw * imh);
    } else {
        assert(2 * (w * imh) + imw < 2 * imw * (imh + 1)) by (nonlinear_arith)
            requires w <= imw, imh >= 1, imw >= 1;
        assert(0 <= 2 * (w * imh) + imw) by (nonlinear_arith)
            requires w >= 1, imh >= 1, imw >= 1;
        assert((2 * (w * imh) + imw) / (2 * imw) < imh + 1) by (nonlinear_arith)
            requires 2 * (w * imh) + imw < 2 * imw * (imh + 1), imw >= 1;
    }
}

/// The center of every output column and row lies inside the image.
pub proof fn lemma_center_in_image(imw: int, imh: int, termw: int, x: int, y: int)
    requires
        imw >= 1,
        imh >= 1,
        termw >= 1,
        0 <= x < out_width(imw, termw),
        0 <= y < out_height(imw, imh, termw),
    ensures
        0 <= center(imw, termw, x) < imw,
        0 <= center(imw, termw, y) < imh,
{
    lemma_out_height_bound(imw, imh, termw);
    if imw > termw {
        let h = out_height(imw, imh, termw);
        assert(2 * imw * x + termw < 2 * termw * imw) by (nonlinear_arith)
            requires 0 <= x < termw, termw < imw;
        assert(0 <= 2 * (imw * x) + termw) by (nonlinear_arith)
            requires 0 <= x, termw >= 1, imw >= 1;
        assert((2 * (imw * x) + termw) / (2 * termw) < imw) by (nonlinear_arith)
            requires 2 * imw * x + termw < 2 * termw * imw, termw >= 1;
        // h * 2 * imw never exceeds the numerator it was divided from
        let num = 2 * (termw * imh) + imw;
        assert(h * (2 * imw) <= num) by (nonlinear_arith)
            requires h == num / (2 * imw), imw >= 1, num >= 0;
        assert(y * (2 * imw) <= (h - 1) * (2 * imw)) by (nonlinear_arith)
            requires 0 <= y, y + 1 <= h, imw >= 1;
        assert((h - 1) * (2 * imw) == h * (2 * imw) - 2 * imw) by (nonlinear_arith);
        assert(2 * imw * y == y * (2 * imw)) by (nonlinear_arith);
        assert(2 * termw * imh == 2 * (termw * imh)) by (nonlinear_arith);
        assert(2 * imw * y + termw < 2 * termw * imh);
        assert(0 <= 2 * (imw * y) + termw) by (nonlinear_arith)
            requires 0 <= y, termw >= 1, imw >= 1;
        assert((2 * (imw * y) + termw) / (2 * termw) < imh) by (nonlinear_arith)
            requires 2 * imw * y + termw < 2 * termw * imh, termw >= 1;
    }
}

/// The sampling window of every output pixel holds its center pixel, so it
/// is never empty.
pub proof fn lemma_window_holds_center(imw: int, imh: int, termw: int, x: int, y: int)
    requires
        imw >= 1,
        imh >= 1,
        termw >= 1,
        0 <= x < out_width(imw, termw),
        0 <= y < out_height(imw, imh, termw),
    ensures
        ({
            let r = kernel_radius(imw, termw);
            let cx = center(imw, termw, x);
            let cy = center(imw, termw, y);
            &&& 0 <= window_lo(cx, r) <= cx < window_hi(cx, r, imw) <= imw
            &&& 0 <= window_lo(cy, r) <= cy < window_hi(cy, r, imh) <= imh
            &&& (window_hi(cx, r, imw) - window_lo(cx, r)) * (window_hi(cy, r, imh)
                - window_lo(cy, r)) >= 1
        }),
{
    lemma_center_in_image(imw, imh, termw, x, y);
    lemma_kernel_size(imw, termw);
    let r = kernel_radius(imw, termw);
    let cx = center(imw, termw, x);
    let cy = center(imw, termw, y);
    let a = window_hi(cx, r, imw) - window_lo(cx, r);
    let b = window_hi(cy, r, imh) - window_lo(cy, r);
    assert(a * b >= 1) by (nonlinear_arith)
        requires a >= 1, b >= 1;
}

/// The kernel is odd and at least one pixel wide.
pub proof fn lemma_kernel_size(imw: int, termw: int)
    requires
        imw >= 1,
        termw >= 1,
    ensures
        kernel_size(imw, termw) >= 1,
        kernel_size(imw, termw) % 2 == 1,
        kernel_radius(imw, termw) >= 0,
        kernel_size(imw, termw) <= if imw > termw { imw } else { 1 },
{
    if imw > termw {
        assert(imw / termw >= 1) by (nonlinear_arith)
            requires imw > termw, termw >= 1;
        assert(imw / termw <= imw) by (nonlinear_arith)
            requires imw >= 1, termw >= 1;
    }
}

/// Output width in columns.
pub fn output_width(imw: i32, termw: i32) -> (r: usize)
    requires
        imw >= 1,
        termw >= 1,
    ensures
        r == out_width(imw as int, termw as int),
{
    if imw < termw { imw as usize } else { termw as usize }
}

/// Output height in pixel rows.
pub fn output_height(imw: i32, imh: i32, termw: i32) -> (r: usize)
    requires
        imw >= 1,
        imh >= 1,
        termw >= 1,
    ensures
        r == out_height(imw as int, imh as int, termw as int),
{
    proof {
        lemma_out_height_bound(imw as int, imh as int, termw as int);
    }
    let w = output_width(imw, termw) as u64;
    proof {
        lemma_mul_upper_bound(w as int, 0x8000_0000, imh as int, 0x8000_0000);
    }
    let num: u64 = 2 * (w * imh as u64) + imw as u64;
    let h = num / (2 * imw as u64);
    h as usize
}

/// Radius of the box filter.
pub fn kernel_radius_of(imw: i32, termw: i32) -> (r: usize)
    requires
        imw >= 1,
        termw >= 1,
    ensures
        r == kernel_radius(imw as int, termw as int),
{
    proof {
        lemma_kernel_size(imw as int, termw as int);
    }
    let k: i32 = if imw > termw { imw / termw } else { 1 };
    let k: i32 = if k % 2 == 0 { k - 1 } else { k };
    ((k - 1) / 2) as usize
}

/// Source coordinate at the center of output coordinate `v`.
pub fn center_of(imw: i32, termw: i32, v: usize) -> (r: u64)
    requires
        imw >= 1,
        termw >= 1,
        v <= 0x8000_0000,
    ensures
        r == center(imw as int, termw as int, v as int),
{
    if imw > termw {
        proof {
            lemma_mul_upper_bound(imw as int, 0x8000_0000, v as int, 0x8000_0000);
        }
        let num: u64 = 2 * (imw as u64 * v as u64) + termw as u64;
        num / (2 * termw as u64)
    } else {
        v as u64
    }
}

} // verus!
