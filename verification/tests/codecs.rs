//! Checks of loading and saving through the real codec crates.

use pixelstore::{EditorSession, ImageType};

fn rgba(pixels: &[[u8; 4]]) -> Vec<u8> {
    let mut v = Vec::new();
    for p in pixels {
        v.extend_from_slice(p);
    }
    v
}

#[test]
fn image_type_tags() {
    assert_eq!(pixelstore::image_type_to_string(ImageType::Qoi), "qoi");
    assert_eq!(pixelstore::image_type_to_string(ImageType::Mpic), "mpic");
    assert_eq!(pixelstore::image_type_to_string(ImageType::Png), "png");
}

#[test]
fn qoi_round_trip_translucent_is_exact() {
    let mut s = EditorSession::new();
    let data = rgba(&[[1, 2, 3, 10], [4, 5, 6, 255], [7, 8, 9, 200], [250, 251, 252, 253]]);
    assert!(s.set_image_buffer(&data, 2, 2));
    assert!(s.image_has_alpha());
    let bytes = s.encode(ImageType::Qoi).expect("qoi encode");
    assert_ne!(bytes.as_slice(), data.as_slice());

    let mut t = EditorSession::new();
    assert!(t.decode(&bytes));
    assert_eq!(t.image_width(), 2);
    assert_eq!(t.image_height(), 2);
    assert!(t.image_has_alpha());
    assert_eq!(t.image_buffer().as_slice(), data.as_slice());
}

#[test]
fn qoi_round_trip_opaque_forces_alpha() {
    let mut s = EditorSession::new();
    let data = rgba(&[[1, 2, 3, 255], [4, 5, 6, 255], [7, 8, 9, 255], [250, 251, 252, 255]]);
    assert!(s.set_image_buffer(&data, 2, 2));
    assert!(!s.image_has_alpha());
    let bytes = s.encode(ImageType::Qoi).expect("qoi encode");

    let mut t = EditorSession::new();
    assert!(t.decode(&bytes));
    assert!(!t.image_has_alpha());
    assert_eq!(t.image_buffer().as_slice(), data.as_slice());
}

#[test]
fn decode_invalidates_snapshot() {
    let mut s = EditorSession::new();
    let data = rgba(&[[1, 2, 3, 255]]);
    assert!(s.set_image_buffer(&data, 1, 1));
    let bytes = s.encode(ImageType::Qoi).expect("qoi encode");
    s.snapshot_save();
    assert!(s.decode(&bytes));
    assert!(!s.snapshot_restore());
}

#[test]
fn decode_malformed_leaves_store_intact() {
    let mut s = EditorSession::new();
    let data = rgba(&[[11, 22, 33, 44], [55, 66, 77, 88]]);
    assert!(s.set_image_buffer(&data, 2, 1));
    s.snapshot_save();

    assert!(!s.decode(b"this is not an image at all"));
    assert!(!s.decode(&[]));
    let valid = s.encode(ImageType::Qoi).expect("qoi encode");
    // a truncated stream parses its header but runs out of data
    assert!(!s.decode(&valid[..valid.len() - 9]));

    assert_eq!(s.image_width(), 2);
    assert_eq!(s.image_height(), 1);
    assert_eq!(s.image_buffer().as_slice(), data.as_slice());
    // even the snapshot survived the failed loads
    assert!(s.snapshot_restore());
}

#[test]
fn mpic_encode_is_unavailable() {
    let mut s = EditorSession::new();
    let data = rgba(&[[1, 2, 3, 255]]);
    assert!(s.set_image_buffer(&data, 1, 1));
    assert!(s.encode(ImageType::Mpic).is_none());
}

#[test]
fn png_encode_rgba_layout_round_trips() {
    let mut s = EditorSession::new();
    let data = rgba(&[[1, 2, 3, 10], [4, 5, 6, 255], [7, 8, 9, 200], [250, 251, 252, 253]]);
    assert!(s.set_image_buffer(&data, 2, 2));
    let bytes = s.encode(ImageType::Png).expect("png encode");
    assert_eq!(&bytes[..8], &[137, 80, 78, 71, 13, 10, 26, 10]);

    let decoder = png::Decoder::new(std::io::Cursor::new(bytes));
    let mut reader = decoder.read_info().expect("png header");
    let mut buf = vec![0u8; reader.output_buffer_size()];
    let info = reader.next_frame(&mut buf).expect("png frame");
    assert_eq!(info.width, 2);
    assert_eq!(info.height, 2);
    assert_eq!(info.color_type, png::ColorType::Rgba);
    buf.truncate(info.buffer_size());
    assert_eq!(buf.as_slice(), data.as_slice());
}

#[test]
fn png_encode_gray_layout_keeps_first_channel() {
    let mut s = EditorSession::new();
    let data = rgba(&[[100, 200, 50, 255], [30, 40, 50, 255]]);
    assert!(s.set_image_buffer(&data, 2, 1));
    s.grayscale(pixelstore::GrayScaleMode::Brightness);
    let gray0 = s.image_buffer()[0];
    let gray1 = s.image_buffer()[4];
    let bytes = s.encode(ImageType::Png).expect("png encode");

    let decoder = png::Decoder::new(std::io::Cursor::new(bytes));
    let mut reader = decoder.read_info().expect("png header");
    let mut buf = vec![0u8; reader.output_buffer_size()];
    let info = reader.next_frame(&mut buf).expect("png frame");
    assert_eq!(info.color_type, png::ColorType::Grayscale);
    buf.truncate(info.buffer_size());
    assert_eq!(buf.as_slice(), &[gray0, gray1]);
}

#[test]
fn png_encode_gray_alpha_layout() {
    let mut s = EditorSession::new();
    let data = rgba(&[[100, 200, 50, 128], [30, 40, 50, 255]]);
    assert!(s.set_image_buffer(&data, 2, 1));
    s.grayscale(pixelstore::GrayScaleMode::Average);
    let g0 = s.image_buffer()[0];
    let g1 = s.image_buffer()[4];
    let bytes = s.encode(ImageType::Png).expect("png encode");

    let decoder = png::Decoder::new(std::io::Cursor::new(bytes));
    let mut reader = decoder.read_info().expect("png header");
    let mut buf = vec![0u8; reader.output_buffer_size()];
    let info = reader.next_frame(&mut buf).expect("png frame");
    assert_eq!(info.color_type, png::ColorType::GrayscaleAlpha);
    buf.truncate(info.buffer_size());
    assert_eq!(buf.as_slice(), &[g0, 128, g1, 255]);
}

#[test]
fn png_encode_rgb_layout_strips_alpha() {
    let mut s = EditorSession::new();
    let data = rgba(&[[10, 20, 30, 255], [40, 50, 60, 255]]);
    assert!(s.set_image_buffer(&data, 2, 1));
    let bytes = s.encode(ImageType::Png).expect("png encode");

    let decoder = png::Decoder::new(std::io::Cursor::new(bytes));
    let mut reader = decoder.read_info().expect("png header");
    let mut buf = vec![0u8; reader.output_buffer_size()];
    let info = reader.next_frame(&mut buf).expect("png frame");
    assert_eq!(info.color_type, png::ColorType::Rgb);
    buf.truncate(info.buffer_size());
    assert_eq!(buf.as_slice(), &[10, 20, 30, 40, 50, 60]);
}

#[test]
fn decode_via_external_qoi_encoder() {
    // encode with the codec crate directly, then load through the engine
    let px = [9u8, 18, 27, 36, 45, 54, 63, 72];
    let qoi = rapid_qoi::Qoi { width: 2, height: 1, colors: rapid_qoi::Colors::Rgba };
    let bytes = qoi.encode_alloc(&px).expect("external encode");
    let mut s = EditorSession::new();
    assert!(s.decode(&bytes));
    assert_eq!(s.image_width(), 2);
    assert!(s.image_has_alpha());
    assert_eq!(s.image_buffer().as_slice(), &px);
}

#[test]
fn empty_image_encodes_but_does_not_decode() {
    let s = EditorSession::new();
    // a 0-by-0 image still serializes to a bare container
    let bytes = s.encode(ImageType::Qoi).expect("qoi encode");
    assert!(bytes.len() > 0);
    // the engine refuses to commit an image without pixels
    let mut t = EditorSession::new();
    assert!(!t.decode(&bytes));
    assert_eq!(t.image_width(), 0);
}

#[test]
fn decode_rejects_header_with_oversized_image() {
    // a syntactically valid header whose pixel size overflows usize; the
    // engine must refuse it cleanly rather than hand it to the decoder
    let mut bytes = Vec::new();
    bytes.extend_from_slice(b"qoif");
    bytes.extend_from_slice(&2147505323u32.to_be_bytes());
    bytes.extend_from_slice(&2863282631u32.to_be_bytes());
    bytes.extend_from_slice(&[3, 1]);
    bytes.extend_from_slice(&[0, 0, 0, 0, 0, 0, 0, 1]);
    let mut s = EditorSession::new();
    assert!(!s.decode(&bytes));
    assert_eq!(s.image_width(), 0);
}
