//! End-to-end checks of the editing operations on a live session.

use pixelstore::{EditorSession, GrayScaleMode, ScaleMode};

fn rgba(pixels: &[[u8; 4]]) -> Vec<u8> {
    let mut v = Vec::new();
    for p in pixels {
        v.extend_from_slice(p);
    }
    v
}

#[test]
fn load_raw_derives_alpha_flag() {
    let mut s = EditorSession::new();
    let opaque = rgba(&[[1, 2, 3, 255], [4, 5, 6, 255]]);
    assert!(s.set_image_buffer(&opaque, 2, 1));
    assert!(!s.image_has_alpha());
    assert_eq!(s.image_width(), 2);
    assert_eq!(s.image_height(), 1);
    assert!(!s.image_is_grayscale());

    let translucent = rgba(&[[1, 2, 3, 255], [4, 5, 6, 254]]);
    assert!(s.set_image_buffer(&translucent, 2, 1));
    assert!(s.image_has_alpha());
}

#[test]
fn load_raw_too_short_fails_without_change() {
    let mut s = EditorSession::new();
    let data = rgba(&[[1, 2, 3, 255]]);
    assert!(s.set_image_buffer(&data, 1, 1));
    assert!(!s.set_image_buffer(&data, 2, 2));
    assert_eq!(s.image_width(), 1);
    assert_eq!(s.image_buffer().as_slice(), data.as_slice());
}

#[test]
fn set_image_info_rescans_and_truncates() {
    let mut s = EditorSession::new();
    let data = rgba(&[[1, 2, 3, 200], [4, 5, 6, 255]]);
    assert!(s.set_image_buffer(&data, 2, 1));
    assert!(s.image_has_alpha());
    // reinterpret as a 1x1 image: only the first pixel remains
    assert!(s.set_image_info(1, 1));
    assert_eq!(s.image_buffer_get_size(), 4);
    assert!(s.image_has_alpha());
    assert!(!s.set_image_info(4, 4));
}

#[test]
fn set_image_has_alpha_overrides_flag() {
    let mut s = EditorSession::new();
    let data = rgba(&[[1, 2, 3, 255]]);
    assert!(s.set_image_buffer(&data, 1, 1));
    assert!(!s.image_has_alpha());
    s.set_image_has_alpha(1);
    assert!(s.image_has_alpha());
    s.set_image_has_alpha(0);
    assert!(!s.image_has_alpha());
}

#[test]
fn cleanup_empties_the_session() {
    let mut s = EditorSession::new();
    let data = rgba(&[[1, 2, 3, 255]]);
    assert!(s.set_image_buffer(&data, 1, 1));
    s.snapshot_save();
    s.cleanup();
    assert_eq!(s.image_width(), 0);
    assert_eq!(s.image_height(), 0);
    assert_eq!(s.image_buffer_get_size(), 0);
    assert!(!s.snapshot_restore());
}

#[test]
fn crop_updates_dimensions() {
    let mut s = EditorSession::new();
    let data = rgba(&[
        [0, 0, 0, 255], [1, 1, 1, 255], [2, 2, 2, 255],
        [3, 3, 3, 255], [4, 4, 4, 255], [5, 5, 5, 255],
    ]);
    assert!(s.set_image_buffer(&data, 3, 2));
    assert!(s.crop(1, 0, 2, 2));
    assert_eq!(s.image_width(), 2);
    assert_eq!(s.image_height(), 2);
    let expected = rgba(&[[1, 1, 1, 255], [2, 2, 2, 255], [4, 4, 4, 255], [5, 5, 5, 255]]);
    assert_eq!(s.image_buffer().as_slice(), expected.as_slice());
}

#[test]
fn crop_full_rectangle_is_identity() {
    let mut s = EditorSession::new();
    let data = rgba(&[[9, 8, 7, 255], [6, 5, 4, 200], [3, 2, 1, 255], [0, 1, 2, 255]]);
    assert!(s.set_image_buffer(&data, 2, 2));
    assert!(s.crop(0, 0, 2, 2));
    assert_eq!(s.image_width(), 2);
    assert_eq!(s.image_height(), 2);
    assert_eq!(s.image_buffer().as_slice(), data.as_slice());
}

#[test]
fn crop_out_of_range_fails_without_change() {
    let mut s = EditorSession::new();
    let data = rgba(&[[9, 8, 7, 255], [6, 5, 4, 255]]);
    assert!(s.set_image_buffer(&data, 2, 1));
    assert!(!s.crop(1, 0, 2, 1));
    assert!(!s.crop(0, 0, 0, 1));
    assert!(!s.crop(0, 1, 1, 1));
    assert_eq!(s.image_buffer().as_slice(), data.as_slice());
    assert_eq!(s.image_width(), 2);
}

#[test]
fn scale_equal_dimensions_is_identity() {
    let mut s = EditorSession::new();
    let data = rgba(&[[9, 8, 7, 255], [6, 5, 4, 200]]);
    assert!(s.set_image_buffer(&data, 2, 1));
    for mode in [ScaleMode::NearstNeighbor, ScaleMode::Bilinear, ScaleMode::Bicubic] {
        assert!(s.scale(2, 1, mode));
        assert_eq!(s.image_buffer().as_slice(), data.as_slice());
        assert!(s.image_has_alpha());
    }
    assert!(s.scale_nn(2, 1));
    assert_eq!(s.image_buffer().as_slice(), data.as_slice());
    assert!(!s.scale(0, 5, ScaleMode::NearstNeighbor));
}

#[test]
fn scale_nn_exact_mapping() {
    let mut s = EditorSession::new();
    let data = rgba(&[[10, 0, 0, 255], [20, 0, 0, 255], [30, 0, 0, 255], [40, 0, 0, 255]]);
    assert!(s.set_image_buffer(&data, 2, 2));
    // enlarging 2x2 to 4x4: destination x maps to source floor(x * 2 / 4)
    assert!(s.scale_nn(4, 4));
    assert_eq!(s.image_width(), 4);
    let buf = s.image_buffer().clone();
    let r_at = |x: usize, y: usize| buf[(y * 4 + x) * 4];
    assert_eq!(r_at(0, 0), 10);
    assert_eq!(r_at(1, 0), 10);
    assert_eq!(r_at(2, 0), 20);
    assert_eq!(r_at(3, 0), 20);
    assert_eq!(r_at(0, 2), 30);
    assert_eq!(r_at(3, 3), 40);
}

#[test]
fn scale_reduction_uses_clamped_window() {
    let mut s = EditorSession::new();
    let data = rgba(&[[10, 20, 30, 255], [50, 60, 70, 255], [90, 100, 110, 255], [130, 140, 150, 255]]);
    assert!(s.set_image_buffer(&data, 2, 2));
    // a pure shrink under Bilinear takes the box-reduction path; the high
    // window edge is clamped to the last source index before the exclusive
    // loop, so the window holds the top-left pixel alone
    assert!(s.scale(1, 1, ScaleMode::Bilinear));
    assert_eq!(s.image_buffer().as_slice(), &[10, 20, 30, 255]);
}

#[test]
fn scale_linear_exact_values() {
    let mut s = EditorSession::new();
    let data = rgba(&[[100, 0, 0, 255], [200, 0, 0, 255]]);
    assert!(s.set_image_buffer(&data, 2, 1));
    assert!(s.scale_linear(3, 1));
    let buf = s.image_buffer().clone();
    assert_eq!(buf[0], 100);
    assert_eq!(buf[4], 150);
    assert_eq!(buf[8], 200);
    assert_eq!(buf[3], 255);
    assert_eq!(buf[7], 255);
}

#[test]
fn scale_cubic_keeps_uniform_color() {
    let mut s = EditorSession::new();
    let data = rgba(&[[42, 77, 3, 255]; 4]);
    assert!(s.set_image_buffer(&data, 2, 2));
    assert!(s.scale_cubic(5, 3));
    assert_eq!(s.image_width(), 5);
    assert_eq!(s.image_height(), 3);
    for p in s.image_buffer().chunks(4) {
        assert_eq!(p, &[42, 77, 3, 255]);
    }
}

#[test]
fn grayscale_is_idempotent() {
    let mut s = EditorSession::new();
    let data = rgba(&[[200, 100, 50, 255], [10, 250, 30, 128]]);
    assert!(s.set_image_buffer(&data, 2, 1));
    s.grayscale(GrayScaleMode::Luminance);
    assert!(s.image_is_grayscale());
    let after_first = s.image_buffer().clone();
    s.grayscale(GrayScaleMode::Average);
    assert_eq!(s.image_buffer().as_slice(), after_first.as_slice());
    s.grayscale(GrayScaleMode::Brightness);
    assert_eq!(s.image_buffer().as_slice(), after_first.as_slice());
}

#[test]
fn grayscale_exact_values() {
    let mut s = EditorSession::new();
    let data = rgba(&[[200, 100, 50, 77]]);
    assert!(s.set_image_buffer(&data, 1, 1));
    s.grayscale(GrayScaleMode::Average);
    // (200 + 100 + 50) / 3 = 116, alpha untouched
    assert_eq!(s.image_buffer().as_slice(), &[116, 116, 116, 77]);

    assert!(s.set_image_buffer(&data, 1, 1));
    s.grayscale(GrayScaleMode::Brightness);
    assert_eq!(s.image_buffer().as_slice(), &[200, 200, 200, 77]);

    assert!(s.set_image_buffer(&data, 1, 1));
    s.grayscale(GrayScaleMode::Luminance);
    // (200*77 + 100*150 + 50*29) / 256 = 124
    assert_eq!(s.image_buffer().as_slice(), &[124, 124, 124, 77]);
}

#[test]
fn posterize_two_levels_maps_to_extremes() {
    let mut s = EditorSession::new();
    let data = rgba(&[[100, 200, 127, 31], [128, 0, 255, 255]]);
    assert!(s.set_image_buffer(&data, 2, 1));
    assert!(s.posterize(false, 2, 2, 2));
    let expected = rgba(&[[0, 255, 0, 31], [255, 0, 255, 255]]);
    assert_eq!(s.image_buffer().as_slice(), expected.as_slice());
}

#[test]
fn posterize_rejects_low_level_counts() {
    let mut s = EditorSession::new();
    let data = rgba(&[[100, 200, 127, 255]]);
    assert!(s.set_image_buffer(&data, 1, 1));
    assert!(!s.posterize(false, 1, 2, 2));
    assert!(!s.posterize(true, 2, 0, 2));
    assert_eq!(s.image_buffer().as_slice(), data.as_slice());
}

#[test]
fn posterize_table_monotone_on_samples() {
    let mut s = EditorSession::new();
    // a gradient over one channel; after quantization it must stay sorted
    let pixels: Vec<[u8; 4]> = (0..=255u8).map(|v| [v, 0, 0, 255]).collect();
    let data = rgba(&pixels);
    assert!(s.set_image_buffer(&data, 256, 1));
    assert!(s.posterize(false, 5, 2, 2));
    let buf = s.image_buffer().clone();
    for i in 1..256usize {
        assert!(buf[i * 4] >= buf[(i - 1) * 4]);
    }
}

#[test]
fn posterize_dither_diffuses_errors() {
    let mut s = EditorSession::new();
    let data = rgba(&[[100, 0, 0, 255], [100, 0, 0, 255]]);
    assert!(s.set_image_buffer(&data, 2, 1));
    assert!(s.posterize(true, 2, 2, 2));
    // pixel 0: 100 quantizes to 0, residual 100; 100*7/16 = 43 flows right
    // pixel 1: 100 + 43 = 143 quantizes to 255
    let expected = rgba(&[[0, 0, 0, 255], [255, 0, 0, 255]]);
    assert_eq!(s.image_buffer().as_slice(), expected.as_slice());
}

#[test]
fn is_dark_exact_threshold() {
    let mut s = EditorSession::new();
    // luminance of (200,100,50) is 124; pixels with alpha <= 64 are skipped
    let data = rgba(&[[200, 100, 50, 255], [255, 255, 255, 10]]);
    assert!(s.set_image_buffer(&data, 2, 1));
    // lhs = 10 + 124 = 134, rhs = 135 + 135 = 270
    assert!(s.image_is_dark(10, 135, 64));
    // lhs = 200 + 124 = 324, rhs = 124 + 124 = 248
    assert!(!s.image_is_dark(200, 124, 64));
}

#[test]
fn make_opaque_is_noop_on_opaque_images() {
    let mut s = EditorSession::new();
    let data = rgba(&[[200, 100, 50, 255]]);
    assert!(s.set_image_buffer(&data, 1, 1));
    s.make_opaque();
    assert_eq!(s.image_buffer().as_slice(), data.as_slice());
    assert!(!s.image_has_alpha());
}

#[test]
fn make_opaque_blends_translucent_pixels() {
    let mut s = EditorSession::new();
    let data = rgba(&[[200, 100, 50, 128]; 4]);
    assert!(s.set_image_buffer(&data, 2, 2));
    // the image counts as dark (255 + 4*124 < 192*5), so the background is
    // white; blend([255;4], [200,100,50,128]) = [227,177,152,255]
    s.make_opaque();
    assert!(!s.image_has_alpha());
    for p in s.image_buffer().chunks(4) {
        assert_eq!(p, &[227, 177, 152, 255]);
    }
}

#[test]
fn snapshot_round_trip_restores_everything() {
    let mut s = EditorSession::new();
    let data = rgba(&[
        [0, 0, 0, 255], [10, 10, 10, 255], [20, 20, 20, 255],
        [30, 30, 30, 255], [40, 40, 40, 255], [50, 50, 50, 255],
    ]);
    assert!(s.set_image_buffer(&data, 3, 2));
    s.snapshot_save();
    assert!(s.crop(0, 0, 2, 2));
    assert!(s.scale(5, 4, ScaleMode::Bicubic));
    s.grayscale(GrayScaleMode::Average);
    assert!(s.posterize(true, 3, 3, 3));
    assert!(s.snapshot_restore());
    assert_eq!(s.image_width(), 3);
    assert_eq!(s.image_height(), 2);
    assert_eq!(s.image_buffer().as_slice(), data.as_slice());
    // the snapshot survives the restore and can be replayed
    assert!(s.crop(0, 0, 1, 1));
    assert!(s.snapshot_restore());
    assert_eq!(s.image_buffer().as_slice(), data.as_slice());
}

#[test]
fn snapshot_restore_without_save_fails() {
    let mut s = EditorSession::new();
    assert!(!s.snapshot_restore());
    let data = rgba(&[[1, 2, 3, 255]]);
    assert!(s.set_image_buffer(&data, 1, 1));
    s.snapshot_save();
    s.snapshot_clear();
    assert!(!s.snapshot_restore());
    assert_eq!(s.image_buffer().as_slice(), data.as_slice());
}

#[test]
fn load_raw_invalidates_snapshot() {
    let mut s = EditorSession::new();
    let first = rgba(&[[1, 2, 3, 255]]);
    assert!(s.set_image_buffer(&first, 1, 1));
    s.snapshot_save();
    let second = rgba(&[[9, 9, 9, 255]]);
    assert!(s.set_image_buffer(&second, 1, 1));
    assert!(!s.snapshot_restore());
    assert_eq!(s.image_buffer().as_slice(), second.as_slice());
}

#[test]
fn empty_session_operations() {
    let mut s = EditorSession::new();
    // no live image: every rectangle is out of range
    assert!(!s.crop(0, 0, 1, 1));
    // equal (zero) dimensions count as the identity
    assert!(s.scale(0, 0, ScaleMode::NearstNeighbor));
    // resampling an empty source yields transparent black pixels
    assert!(s.scale_nn(2, 1));
    assert_eq!(s.image_buffer().as_slice(), &[0, 0, 0, 0, 0, 0, 0, 0]);
    assert!(s.image_has_alpha());
}

#[test]
fn empty_session_snapshot_and_color_ops() {
    let mut s = EditorSession::new();
    s.snapshot_save();
    s.grayscale(GrayScaleMode::Average);
    s.make_opaque();
    assert!(s.posterize(false, 2, 2, 2));
    assert!(s.snapshot_restore());
    assert_eq!(s.image_width(), 0);
    assert_eq!(s.image_buffer_get_size(), 0);
}
