use uhtml_pics_parse::extractor::UHTMLImageExtractor;

fn png_header_bytes(width: u32, height: u32) -> Vec<u8> {
    let mut v = vec![0x89, 0x50, 0x4e, 0x47, 0x0d, 0x0a, 0x1a, 0x0a];
    v.extend_from_slice(&[0x00, 0x00, 0x00, 0x0d]);
    v.extend_from_slice(b"IHDR");
    v.extend_from_slice(&width.to_be_bytes());
    v.extend_from_slice(&height.to_be_bytes());
    v.extend_from_slice(&[0x08, 0x02, 0x00, 0x00, 0x00]);
    v
}

#[test]
fn png_dimension_roundtrip_via_fallback_parser() {
    let extractor = UHTMLImageExtractor::new();
    let buf = png_header_bytes(300, 150);
    assert_eq!(extractor.parse_png_dimensions(&buf), Some((300, 150)));
    assert_eq!(extractor.parse_image_dimensions_manually(&buf), (300, 150));
}

#[test]
fn png_too_short_for_ihdr() {
    let extractor = UHTMLImageExtractor::new();
    let buf = png_header_bytes(300, 150);
    assert_eq!(extractor.parse_png_dimensions(&buf[..20]), None);
    // 10 bytes or more, but nothing resolvable: the placeholder.
    assert_eq!(extractor.parse_image_dimensions_manually(&buf[..20]), (100, 100));
}

#[test]
fn gif_dimensions_little_endian() {
    let extractor = UHTMLImageExtractor::new();
    let mut buf = vec![0x47, 0x49, 0x46, 0x38, 0x37, 0x61];
    buf.extend_from_slice(&320u16.to_le_bytes());
    buf.extend_from_slice(&200u16.to_le_bytes());
    buf.extend_from_slice(&[0x00, 0x00, 0x00]);
    assert_eq!(extractor.parse_gif_dimensions(&buf), Some((320, 200)));
    assert_eq!(extractor.parse_image_dimensions_manually(&buf), (320, 200));
}

#[test]
fn jpeg_marker_walk_skips_segments() {
    let extractor = UHTMLImageExtractor::new();
    let mut buf = vec![0xff, 0xd8];
    // An application segment of declared length 16 to be skipped.
    buf.extend_from_slice(&[0xff, 0xe0, 0x00, 0x10]);
    buf.extend(std::iter::repeat(0x01).take(14));
    // The start-of-frame segment holding height 480, width 640.
    buf.extend_from_slice(&[0xff, 0xc0, 0x00, 0x11, 0x08]);
    buf.extend_from_slice(&480u16.to_be_bytes());
    buf.extend_from_slice(&640u16.to_be_bytes());
    buf.extend(std::iter::repeat(0x01).take(10));
    assert_eq!(extractor.parse_jpeg_dimensions(&buf), Some((640, 480)));
    assert_eq!(extractor.parse_image_dimensions_manually(&buf), (640, 480));
}

#[test]
fn jpeg_truncated_before_frame_fields() {
    let extractor = UHTMLImageExtractor::new();
    let buf = vec![0xff, 0xd8, 0xff, 0xc0, 0x00, 0x11, 0x08, 0x00, 0x96, 0x01];
    assert_eq!(extractor.parse_jpeg_dimensions(&buf), None);
    assert_eq!(extractor.parse_image_dimensions_manually(&buf), (100, 100));
}

#[test]
fn short_buffer_yields_zero_dimensions() {
    let extractor = UHTMLImageExtractor::new();
    let buf = [0xffu8, 0xd8, 0xff, 0x01, 0x01];
    assert_eq!(extractor.parse_image_dimensions_manually(&buf), (0, 0));
}

#[test]
fn unknown_bytes_yield_placeholder() {
    let extractor = UHTMLImageExtractor::new();
    let buf = [0x55u8; 32];
    assert_eq!(extractor.parse_image_dimensions_manually(&buf), (100, 100));
    assert_eq!(extractor.get_image_dimensions(&buf), (100, 100));
}

#[test]
fn general_reader_answers_for_formats_the_fallback_cannot() {
    // A minimal 24-bit BMP of 7x5 pixels: the general image reader
    // resolves its dimensions while the fallback parser, which knows
    // no BMP layout, would answer with the placeholder.
    let width: i32 = 7;
    let height: i32 = 5;
    let row = ((width * 3 + 3) / 4 * 4) as usize;
    let pixel_bytes = row * height as usize;
    let mut buf = Vec::new();
    buf.extend_from_slice(b"BM");
    buf.extend_from_slice(&((54 + pixel_bytes) as u32).to_le_bytes());
    buf.extend_from_slice(&[0x00, 0x00, 0x00, 0x00]);
    buf.extend_from_slice(&54u32.to_le_bytes());
    buf.extend_from_slice(&40u32.to_le_bytes());
    buf.extend_from_slice(&width.to_le_bytes());
    buf.extend_from_slice(&height.to_le_bytes());
    buf.extend_from_slice(&1u16.to_le_bytes());
    buf.extend_from_slice(&24u16.to_le_bytes());
    buf.extend_from_slice(&0u32.to_le_bytes());
    buf.extend_from_slice(&(pixel_bytes as u32).to_le_bytes());
    buf.extend_from_slice(&2835u32.to_le_bytes());
    buf.extend_from_slice(&2835u32.to_le_bytes());
    buf.extend_from_slice(&0u32.to_le_bytes());
    buf.extend_from_slice(&0u32.to_le_bytes());
    buf.extend(std::iter::repeat(0x01).take(pixel_bytes));

    let extractor = UHTMLImageExtractor::new();
    assert_eq!(extractor.parse_image_dimensions_manually(&buf), (100, 100));
    assert_eq!(extractor.get_image_dimensions(&buf), (7, 5));
}
