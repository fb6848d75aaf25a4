use imcat::background::{parse_background, BlendColor};
use imcat::cells::print_image;
use imcat::geometry::{center_of, kernel_radius_of, output_height, output_width};
use imcat::imcat;
use imcat::resample::{resample, DecodedImage, ImcatError};

fn solid(w: i32, h: i32, c: [u8; 4]) -> DecodedImage {
    let mut p = Vec::new();
    for _ in 0..(w * h) {
        p.extend_from_slice(&c);
    }
    DecodedImage::new(w, h, 4, p).unwrap()
}

fn fg(r: u8, g: u8, b: u8) -> String {
    format!("\x1b[38;2;{};{};{}m", r, g, b)
}

fn bg_cell(r: u8, g: u8, b: u8) -> String {
    format!("\x1b[48;2;{};{};{}m\u{2580}\x1b[0m", r, g, b)
}

#[test]
fn red_four_by_four_to_two_by_two() {
    let img = solid(4, 4, [255, 0, 0, 255]);
    let out = resample(&img, 2, 24);
    assert_eq!(out.outw, 2);
    assert_eq!(out.outh, 2);
    assert_eq!(out.pixels.len(), 16);
    for px in out.pixels.chunks(4) {
        assert_eq!(px, &[255, 0, 0, 255]);
    }
}

#[test]
fn one_pixel_wide_image() {
    let img = DecodedImage::new(1, 3, 4, vec![1, 2, 3, 255, 4, 5, 6, 255, 7, 8, 9, 255]).unwrap();
    let out = resample(&img, 80, 24);
    assert_eq!((out.outw, out.outh), (1, 3));
    assert_eq!(out.pixels, vec![1, 2, 3, 255, 4, 5, 6, 255, 7, 8, 9, 255]);
}

#[test]
fn one_pixel_high_image() {
    let img = solid(3, 1, [9, 8, 7, 255]);
    let out = resample(&img, 80, 24);
    assert_eq!((out.outw, out.outh), (3, 1));
    assert_eq!(out.pixels.len(), 12);
    assert!(out.pixels.chunks(4).all(|p| p == [9, 8, 7, 255]));
}

#[test]
fn output_size_follows_terminal_width_and_aspect() {
    assert_eq!(output_width(100, 40), 40);
    assert_eq!(output_height(100, 50, 40), 20);
    assert_eq!(output_width(30, 80), 30);
    assert_eq!(output_height(30, 17, 80), 17);
    assert_eq!(output_height(4, 5, 10), 5);
    // 4 * 5 / 8 = 2.5 rounds up
    assert_eq!(output_height(8, 5, 4), 3);
    // too flat for a single row
    assert_eq!(output_height(100, 1, 10), 0);
}

#[test]
fn kernel_radius_is_odd_kernel_half() {
    assert_eq!(kernel_radius_of(9, 3), 1);
    assert_eq!(kernel_radius_of(8, 2), 1);
    assert_eq!(kernel_radius_of(4, 2), 0);
    assert_eq!(kernel_radius_of(10, 2), 2);
    assert_eq!(kernel_radius_of(5, 80), 0);
}

#[test]
fn centers_scale_by_pixels_per_cell() {
    assert_eq!(center_of(10, 4, 3), 8);
    assert_eq!(center_of(10, 4, 1), 3);
    assert_eq!(center_of(5, 80, 4), 4);
}

#[test]
fn alpha_weighted_average_over_clamped_window() {
    let p = vec![
        255, 0, 0, 255, 0, 255, 0, 255, 0, 0, 0, 255, //
        0, 0, 255, 255, 100, 100, 100, 51, 0, 0, 0, 255, //
        0, 0, 0, 255, 0, 0, 0, 255, 0, 0, 0, 255,
    ];
    let img = DecodedImage::new(3, 3, 4, p).unwrap();
    let out = resample(&img, 1, 24);
    assert_eq!((out.outw, out.outh), (1, 1));
    assert_eq!(out.pixels, vec![68, 68, 68, 193]);
}

#[test]
fn uniform_image_keeps_its_colour() {
    let img = solid(7, 5, [10, 20, 30, 255]);
    let out = resample(&img, 3, 24);
    assert_eq!(out.pixels.len(), out.outw * out.outh * 4);
    assert!(out.outw * out.outh > 0);
    assert!(out.pixels.chunks(4).all(|p| p == [10, 20, 30, 255]));
}

#[test]
fn uniform_translucent_image_is_attenuated() {
    let img = solid(6, 6, [200, 100, 50, 128]);
    let out = resample(&img, 4, 24);
    let want = [
        (128u32 * 200 / 255) as u8,
        (128u32 * 100 / 255) as u8,
        (128u32 * 50 / 255) as u8,
        (128u32 * 128 / 255) as u8,
    ];
    assert!(out.pixels.chunks(4).all(|p| p == want));
}

#[test]
fn output_length_is_width_times_height_times_four() {
    let img = solid(13, 29, [1, 1, 1, 255]);
    let out = resample(&img, 5, 24);
    assert_eq!(out.outw, 5);
    assert_eq!(out.outh, 11);
    assert_eq!(out.pixels.len(), 5 * 11 * 4);
}

#[test]
fn one_cell_has_foreground_background_and_reset() {
    let data = vec![1, 2, 3, 255, 4, 5, 6, 0];
    let out = print_image(1, 2, &data);
    let want = format!("{}{}", fg(1, 2, 3), bg_cell(4, 5, 6));
    assert_eq!(String::from_utf8(out).unwrap(), want);
}

#[test]
fn decimal_widths_in_escapes() {
    let data = vec![0, 9, 10, 255, 99, 100, 255, 255];
    let out = print_image(1, 2, &data);
    let want = format!("{}{}", fg(0, 9, 10), bg_cell(99, 100, 255));
    assert_eq!(String::from_utf8(out).unwrap(), want);
}

#[test]
fn odd_last_row_is_dropped() {
    let two_rows = vec![1, 1, 1, 255, 2, 2, 2, 255, 3, 3, 3, 255, 4, 4, 4, 255];
    let mut three_rows = two_rows.clone();
    three_rows.extend_from_slice(&[7, 7, 7, 255, 8, 8, 8, 255]);
    let a = print_image(2, 2, &two_rows);
    let b = print_image(2, 3, &three_rows);
    assert_eq!(a, b);
    let want = format!("{}{}{}{}", fg(1, 1, 1), bg_cell(3, 3, 3), fg(2, 2, 2), bg_cell(4, 4, 4));
    assert_eq!(String::from_utf8(a).unwrap(), want);
    // only the first row: nothing at all is printed, and nothing is read
    assert!(print_image(2, 1, &vec![1, 1, 1, 255, 2, 2, 2, 255]).is_empty());
}

#[test]
fn each_cell_emits_two_colours_and_one_reset() {
    let img = solid(6, 4, [5, 6, 7, 255]);
    let out = String::from_utf8(imcat(&img, 80, 24)).unwrap();
    assert_eq!(out.matches("\x1b[38;2;").count(), 12);
    assert_eq!(out.matches("\x1b[48;2;").count(), 12);
    assert_eq!(out.matches("\x1b[0m").count(), 12);
    let cell = format!("{}{}", fg(5, 6, 7), bg_cell(5, 6, 7));
    assert_eq!(out, cell.repeat(12));
}

#[test]
fn decoded_image_rejects_bad_buffers() {
    assert_eq!(DecodedImage::new(2, 2, 3, vec![0; 15]).err(), Some(ImcatError::DecodeFailure));
    assert_eq!(DecodedImage::new(0, 2, 4, vec![]).err(), Some(ImcatError::DecodeFailure));
    assert_eq!(DecodedImage::new(2, -1, 4, vec![]).err(), Some(ImcatError::DecodeFailure));
    assert!(DecodedImage::new(2, 2, 3, vec![0; 16]).is_ok());
}

#[test]
fn background_not_a_number_is_config_failure() {
    assert_eq!(parse_background("white"), Err(ImcatError::ConfigFailure));
    assert_eq!(parse_background(""), Err(ImcatError::ConfigFailure));
    assert_eq!(parse_background("+"), Err(ImcatError::ConfigFailure));
    assert_eq!(parse_background("-1"), Err(ImcatError::ConfigFailure));
    assert_eq!(parse_background("12a"), Err(ImcatError::ConfigFailure));
    assert_eq!(parse_background("4294967296"), Err(ImcatError::ConfigFailure));
}

#[test]
fn background_unpacks_rgb() {
    assert_eq!(parse_background("16711680"), Ok(BlendColor { r: 255, g: 0, b: 0 }));
    assert_eq!(parse_background("+255"), Ok(BlendColor { r: 0, g: 0, b: 255 }));
    assert_eq!(parse_background("4294967295"), Ok(BlendColor { r: 255, g: 255, b: 255 }));
    assert_eq!(BlendColor::from_packed(0x12_34_56), BlendColor { r: 0x12, g: 0x34, b: 0x56 });
}
