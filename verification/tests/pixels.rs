//! Unit checks of the pixel-level formulas: blending and luminance.

use pixelstore::{blend, luminance};

#[test]
fn blend_returns_foreground_when_opaque() {
    let bg = [10, 20, 30, 255];
    let fg = [200, 100, 50, 255];
    assert_eq!(blend(bg, fg), fg);
}

#[test]
fn blend_returns_background_when_transparent() {
    let bg = [10, 20, 30, 255];
    let fg = [200, 100, 50, 0];
    assert_eq!(blend(bg, fg), bg);
}

#[test]
fn blend_mid_alpha_exact_values() {
    // la = 255 * (256 - 128) / 256 = 127, sa = 255
    // r = (255*127 + 200*128) / 255 = 227
    // g = (255*127 + 100*128) / 255 = 177
    // b = (255*127 + 50*128) / 255 = 152
    let out = blend([255, 255, 255, 255], [200, 100, 50, 128]);
    assert_eq!(out, [227, 177, 152, 255]);
}

#[test]
fn blend_onto_black_exact_values() {
    // r = (0*127 + 200*128) / 255 = 100
    let out = blend([0, 0, 0, 255], [200, 100, 50, 128]);
    assert_eq!(out, [100, 50, 25, 255]);
}

#[test]
fn luminance_white_is_255() {
    assert_eq!(luminance(&[255, 255, 255]), 255);
}

#[test]
fn luminance_exact_small_values() {
    // (1*77 + 2*150 + 3*29) / 256 = 464 / 256 = 1
    assert_eq!(luminance(&[1, 2, 3]), 1);
    assert_eq!(luminance(&[0, 0, 0]), 0);
}

#[test]
fn luminance_short_slice_is_zero() {
    assert_eq!(luminance(&[9, 9]), 0);
}

#[test]
fn get_pixel_reads_and_out_of_range_is_zero() {
    let info = pixelstore::ImageInfo::new(2, 2, pixelstore::Transparency::Opaque);
    let data: Vec<u8> = (0u8..16).collect();
    assert_eq!(info.get_pixel(0, 0, &data), [0, 1, 2, 3]);
    assert_eq!(info.get_pixel(1, 1, &data), [12, 13, 14, 15]);
    // a column beyond the width reads as zero even though the flat
    // offset would still land inside the buffer (no row wrap-around)
    assert_eq!(info.get_pixel(2, 0, &data), [0, 0, 0, 0]);
    assert_eq!(info.get_pixel(0, 2, &data), [0, 0, 0, 0]);
    assert_eq!(info.get_pixel(7, 7, &data), [0, 0, 0, 0]);
}

#[test]
fn set_pixel_writes_in_place() {
    let info = pixelstore::ImageInfo::new(2, 1, pixelstore::Transparency::Opaque);
    let mut data: Vec<u8> = vec![0; 8];
    info.set_pixel(1, 0, &mut data, [9, 8, 7, 6]);
    assert_eq!(data, vec![0, 0, 0, 0, 9, 8, 7, 6]);
    // a write beyond the buffer is skipped
    info.set_pixel(5, 5, &mut data, [1, 1, 1, 1]);
    assert_eq!(data, vec![0, 0, 0, 0, 9, 8, 7, 6]);
    // so is a write whose column lies beyond the width, even though the
    // flat offset would wrap into a longer buffer
    let tall = pixelstore::ImageInfo::new(2, 2, pixelstore::Transparency::Opaque);
    let mut data2: Vec<u8> = vec![0; 16];
    tall.set_pixel(2, 0, &mut data2, [1, 1, 1, 1]);
    assert_eq!(data2, vec![0; 16]);
}
