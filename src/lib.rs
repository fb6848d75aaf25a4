//! Shows raster images in a terminal as coloured half-block characters.
//!
//! A decoded RGBA image is first shrunk by a box filter to one pixel per
//! terminal column ([`resample::resample`]); the result is then printed two
//! pixel rows per line of text, the upper pixel as the foreground colour of
//! `▀` and the lower one as its background ([`cells::print_image`]).
use vstd::prelude::*;

pub mod geometry;
pub mod resample;
pub mod cells;
pub mod background;

use crate::cells::{print_image, rendered};
use crate::geometry::{out_height, out_width, lemma_out_height_bound};
use crate::resample::{resample, resampled_pixels, DecodedImage};

verus! {

/// Prepares the console for escape sequences; terminals that understand
/// them already need nothing.
pub fn set_console_mode() {
}

/// The bytes that show `image` on a terminal `termw` columns wide: the
/// image resampled to the cell grid, then printed as half-block cells.
pub fn imcat(image: &DecodedImage, termw: i32, termh: i32) -> (r: Vec<u8>)
    requires
        image.wf(),
        termw >= 1,
    ensures
        r@ == rendered(
            resampled_pixels(
                image.pixels@,
                image.width as int,
                image.height as int,
                termw as int,
            ),
            out_width(image.width as int, termw as int),
            out_height(image.width as int, image.height as int, termw as int),
        ),
{
    let small = resample(image, termw, termh);
    proof {
        lemma_out_height_bound(image.width as int, image.height as int, termw as int);
        let w = small.outw as int;
        let h = small.outh as int;
        assert((h / 2) * 2 * w * 4 <= w * h * 4) by (nonlinear_arith)
            requires w >= 0, h >= 0;
    }
    print_image(small.outw, small.outh, &small.pixels)
}

} // verus!
