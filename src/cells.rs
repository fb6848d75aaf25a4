//! Turns a resampled image into half-block characters with 24-bit colour
//! escape sequences, two pixel rows per line of text.
use vstd::prelude::*;

verus! {

/// Decimal digits of a byte value, in ASCII, without leading zeros.
pub open spec fn decimal(v: int) -> Seq<u8> {
    if v < 10 {
        seq![(48 + v) as u8]
    } else if v < 100 {
        seq![(48 + v / 10) as u8, (48 + v % 10) as u8]
    } else {
        seq![(48 + v / 100) as u8, (48 + (v / 10) % 10) as u8, (48 + v % 10) as u8]
    }
}

/// Escape sequence that sets the foreground (`layer` is `b'3'`) or the
/// background (`layer` is `b'4'`) to the colour `(r, g, b)`:
/// `ESC [ layer 8 ; 2 ; r ; g ; b m`.
pub open spec fn color_escape(layer: u8, r: u8, g: u8, b: u8) -> Seq<u8> {
    seq![27u8, 91u8, layer, 56u8, 59u8, 50u8, 59u8] + decimal(r as int) + seq![59u8] + decimal(
        g as int,
    ) + seq![59u8] + decimal(b as int) + seq![109u8]
}

/// The upper half block `▀` in UTF-8.
pub open spec fn half_block() -> Seq<u8> {
    seq![0xE2u8, 0x96u8, 0x80u8]
}

/// `ESC [ 0 m`, which resets all attributes.
pub open spec fn reset_escape() -> Seq<u8> {
    seq![27u8, 91u8, 48u8, 109u8]
}

/// The text of the cell in column `x` of text line `k` of an image `w`
/// pixels wide: the foreground takes the colour of pixel `(x, 2k)`, the
/// background that of pixel `(x, 2k + 1)`, then the glyph and a reset.
pub open spec fn cell(p: Seq<u8>, w: int, k: int, x: int) -> Seq<u8> {
    let top = ((2 * k) * w + x) * 4;
    let bottom = ((2 * k + 1) * w + x) * 4;
    color_escape(51u8, p[top], p[top + 1], p[top + 2]) + color_escape(
        52u8,
        p[bottom],
        p[bottom + 1],
        p[bottom + 2],
    ) + half_block() + reset_escape()
}

/// The first `n` cells of text line `k`.
pub open spec fn line(p: Seq<u8>, w: int, k: int, n: int) -> Seq<u8>
    decreases n,
{
    if n <= 0 {
        Seq::empty()
    } else {
        line(p, w, k, n - 1) + cell(p, w, k, n - 1)
    }
}

/// The first `n` text lines.
pub open spec fn lines(p: Seq<u8>, w: int, n: int) -> Seq<u8>
    decreases n,
{
    if n <= 0 {
        Seq::empty()
    } else {
        lines(p, w, n - 1) + line(p, w, n - 1, w)
    }
}

/// Everything printed for an image of `w` by `h` pixels: one text line per
/// pair of pixel rows; an odd last row has no partner and is left out.
pub open spec fn rendered(p: Seq<u8>, w: int, h: int) -> Seq<u8> {
    lines(p, w, h / 2)
}

proof fn lemma_line_reads_pairs(pa: Seq<u8>, pb: Seq<u8>, w: int, pairs: int, k: int, n: int)
    requires
        0 <= k < pairs,
        0 <= n <= w,
        forall|i: int| 0 <= i < pairs * 2 * w * 4 ==> pa[i] == pb[i],
    ensures
        line(pa, w, k, n) == line(pb, w, k, n),
    decreases n,
{
    if n > 0 {
        lemma_line_reads_pairs(pa, pb, w, pairs, k, n - 1);
        let x = n - 1;
        assert(((2 * k + 1) * w + x) * 4 + 3 < pairs * 2 * w * 4 && 0 <= ((2 * k) * w + x) * 4)
            by (nonlinear_arith)
            requires 0 <= k < pairs, 0 <= x < w;
        assert(((2 * k) * w + x) * 4 + 3 < ((2 * k + 1) * w + x) * 4) by (nonlinear_arith)
            requires 0 <= x < w;
        assert(cell(pa, w, k, x) == cell(pb, w, k, x));
    }
}

proof fn lemma_lines_read_pairs(pa: Seq<u8>, pb: Seq<u8>, w: int, pairs: int, n: int)
    requires
        0 <= n <= pairs,
        w >= 0,
        forall|i: int| 0 <= i < pairs * 2 * w * 4 ==> pa[i] == pb[i],
    ensures
        lines(pa, w, n) == lines(pb, w, n),
    decreases n,
{
    if n > 0 {
        lemma_lines_read_pairs(pa, pb, w, pairs, n - 1);
        lemma_line_reads_pairs(pa, pb, w, pairs, n - 1, w);
    }
}

/// What is printed for a `w` by `h` image depends on its first `h / 2 * 2`
/// rows alone: no row past `h` is read, and an odd last row is not read
/// either.
pub proof fn lemma_rendered_reads_paired_rows(pa: Seq<u8>, pb: Seq<u8>, w: int, h: int)
    requires
        w >= 0,
        h >= 0,
        forall|i: int| 0 <= i < (h / 2) * 2 * w * 4 ==> pa[i] == pb[i],
    ensures
        rendered(pa, w, h) == rendered(pb, w, h),
{
    lemma_lines_read_pairs(pa, pb, w, h / 2, h / 2);
}

/// Appends the decimal digits of `v`.
fn push_decimal(out: &mut Vec<u8>, v: u8)
    ensures
        final(out)@ == old(out)@ + decimal(v as int),
{
    if v >= 100 {
        out.push(48 + v / 100);
        out.push(48 + (v / 10) % 10);
        out.push(48 + v % 10);
    } else if v >= 10 {
        out.push(48 + v / 10);
        out.push(48 + v % 10);
    } else {
        out.push(48 + v);
    }
}

/// Appends the escape sequence that gives `layer` the colour `(r, g, b)`.
fn push_color(out: &mut Vec<u8>, layer: u8, r: u8, g: u8, b: u8)
    ensures
        final(out)@ == old(out)@ + color_escape(layer, r, g, b),
{
    let ghost start = out@;
    out.push(27);
    out.push(91);
    out.push(layer);
    out.push(56);
    out.push(59);
    out.push(50);
    out.push(59);
    push_decimal(out, r);
    out.push(59);
    push_decimal(out, g);
    out.push(59);
    push_decimal(out, b);
    out.push(109);
    assert(out@ =~= start + color_escape(layer, r, g, b));
}

/// Appends the cell in column `x` of text line `k`.
fn push_cell(out: &mut Vec<u8>, data: &Vec<u8>, w: usize, k: usize, x: usize)
    requires
        x < w,
        ((2 * k + 1) * w + x) * 4 + 3 < data@.len(),
        2 * k + 1 <= (2 * k + 1) * w,
        (2 * k) * w <= (2 * k + 1) * w,
    ensures
        final(out)@ == old(out)@ + cell(data@, w as int, k as int, x as int),
{
    let _len = data.len();
    let top: usize = ((2 * k) * w + x) * 4;
    let bottom: usize = ((2 * k + 1) * w + x) * 4;
    let ghost before = out@;
    push_color(out, 51, data[top], data[top + 1], data[top + 2]);
    push_color(out, 52, data[bottom], data[bottom + 1], data[bottom + 2]);
    out.push(0xE2);
    out.push(0x96);
    out.push(0x80);
    out.push(27);
    out.push(91);
    out.push(48);
    out.push(109);
    assert(out@ =~= before + cell(data@, w as int, k as int, x as int));
}

/// The text that shows a `w` by `h` RGBA image in the terminal, two pixel
/// rows per line of text. An odd last row is never read. Alpha is not
/// shown: the resampler has already folded it into the colours.
pub fn print_image(w: usize, h: usize, data: &Vec<u8>) -> (r: Vec<u8>)
    requires
        (h / 2) * 2 * w * 4 <= data@.len(),
    ensures
        r@ == rendered(data@, w as int, h as int),
{
    let len = data.len();
    let h: usize = if h % 2 != 0 { h - 1 } else { h };
    let pairs: usize = h / 2;
    let mut out: Vec<u8> = Vec::new();
    let mut k: usize = 0;
    while k < pairs
        invariant
            len == data@.len(),
            pairs * 2 * w * 4 <= len,
            k <= pairs,
            out@ == lines(data@, w as int, k as int),
        decreases pairs - k,
    {
        let mut x: usize = 0;
        while x < w
            invariant
                len == data@.len(),
                pairs * 2 * w * 4 <= len,
                k < pairs,
                x <= w,
                out@ == lines(data@, w as int, k as int) + line(data@, w as int, k as int, x as int),
            decreases w - x,
        {
            assert(((2 * k + 1) * w + x) * 4 + 3 < pairs * 2 * w * 4 && 2 * k + 1 <= (2 * k + 1)
                * w && (2 * k) * w <= (2 * k + 1) * w) by (nonlinear_arith)
                requires k < pairs, x < w;
            let ghost before = out@;
            push_cell(&mut out, data, w, k, x);
            assert(out@ =~= lines(data@, w as int, k as int) + line(
                data@,
                w as int,
                k as int,
                x + 1,
            ));
            x = x + 1;
        }
        k = k + 1;
    }
    out
}

} // verus!
