use uhtml_pics_parse::extractor::UHTMLImageExtractor;

fn gif_no_footer(width: u16, height: u16, pad: usize) -> Vec<u8> {
    let mut v = vec![0x47, 0x49, 0x46, 0x38, 0x39, 0x61];
    v.extend_from_slice(&width.to_le_bytes());
    v.extend_from_slice(&height.to_le_bytes());
    v.extend(std::iter::repeat(0x01).take(pad));
    v
}

fn gif(width: u16, height: u16, pad: usize) -> Vec<u8> {
    let mut v = gif_no_footer(width, height, pad);
    v.push(0x00);
    v.push(0x3b);
    v
}

fn jpeg(width: u16, height: u16, pad: usize) -> Vec<u8> {
    let mut v = vec![0xff, 0xd8, 0xff, 0xc0, 0x00, 0x11, 0x08];
    v.extend_from_slice(&height.to_be_bytes());
    v.extend_from_slice(&width.to_be_bytes());
    v.extend(std::iter::repeat(0x01).take(pad));
    v.push(0xff);
    v.push(0xd9);
    v
}

fn png(width: u32, height: u32, pad: usize) -> Vec<u8> {
    let mut v = vec![0x89, 0x50, 0x4e, 0x47, 0x0d, 0x0a, 0x1a, 0x0a];
    v.extend_from_slice(&[0x00, 0x00, 0x00, 0x0d]);
    v.extend_from_slice(b"IHDR");
    v.extend_from_slice(&width.to_be_bytes());
    v.extend_from_slice(&height.to_be_bytes());
    v.extend_from_slice(&[0x08, 0x02, 0x00, 0x00, 0x00]);
    v.extend_from_slice(&[0x01, 0x01, 0x01, 0x01]);
    v.extend(std::iter::repeat(0x01).take(pad));
    v.extend_from_slice(&[0x49, 0x45, 0x4e, 0x44, 0xae, 0x42, 0x60, 0x82]);
    v
}

#[test]
fn no_signatures_empty_result() {
    let extractor = UHTMLImageExtractor::new();
    let buf = vec![0u8; 500];
    let images = extractor.extract_images(&buf, false, None);
    assert!(images.is_empty());
}

#[test]
fn one_image_per_format() {
    let extractor = UHTMLImageExtractor::new();
    let j = jpeg(300, 150, 120);
    let p = png(300, 150, 120);
    let g = gif(50, 50, 120);
    let mut buf = Vec::new();
    buf.extend_from_slice(&j);
    buf.extend_from_slice(&p);
    buf.extend_from_slice(&g);
    let images = extractor.extract_images(&buf, false, None);
    assert_eq!(images.len(), 3);

    assert_eq!(images[0].image_type, "image/jpeg");
    assert_eq!(images[0].position, 0);
    assert_eq!(images[0].end_position, j.len());
    assert_eq!(images[0].size, j.len());
    assert_eq!(images[0].data, j);

    assert_eq!(images[1].image_type, "image/png");
    assert_eq!(images[1].position, j.len());
    assert_eq!(images[1].end_position, j.len() + p.len());
    assert_eq!(images[1].size, p.len());
    assert_eq!(images[1].data, p);

    assert_eq!(images[2].image_type, "image/gif");
    assert_eq!(images[2].position, j.len() + p.len());
    assert_eq!(images[2].end_position, buf.len());
    assert_eq!(images[2].size, g.len());
    assert_eq!(images[2].data, g);
}

#[test]
fn truncated_trailing_image_runs_to_buffer_end() {
    let extractor = UHTMLImageExtractor::new();
    let buf = gif_no_footer(50, 50, 200);
    let images = extractor.extract_images(&buf, false, None);
    assert_eq!(images.len(), 1);
    assert_eq!(images[0].position, 0);
    assert_eq!(images[0].size, buf.len());
    assert_eq!(images[0].end_position, buf.len());
}

#[test]
fn truncated_trailing_image_capped_at_one_mebibyte() {
    let extractor = UHTMLImageExtractor::new();
    let mut buf = gif_no_footer(50, 50, 0);
    buf.resize(1_200_000, 0x01);
    let images = extractor.extract_images(&buf, false, None);
    assert_eq!(images.len(), 1);
    assert_eq!(images[0].size, 1_048_576);
    assert_eq!(images[0].end_position, 1_048_576);
}

#[test]
fn missing_footer_bounded_by_next_header() {
    let extractor = UHTMLImageExtractor::new();
    let first = gif_no_footer(50, 50, 140);
    let second = jpeg(300, 150, 120);
    let mut buf = Vec::new();
    buf.extend_from_slice(&first);
    buf.extend_from_slice(&second);
    let images = extractor.extract_images(&buf, false, None);
    assert_eq!(images.len(), 2);
    assert_eq!(images[0].image_type, "image/gif");
    assert_eq!(images[0].end_position, first.len());
    assert_eq!(images[1].position, first.len());
    assert_eq!(images[0].data, first);
}

#[test]
fn rejected_candidates_consume_no_index_slots() {
    let extractor = UHTMLImageExtractor::new();
    let parts = [
        gif(50, 50, 120),
        gif(10, 10, 120),
        gif(60, 60, 120),
        gif(15, 15, 120),
        gif(70, 70, 120),
    ];
    let mut buf = Vec::new();
    for part in &parts {
        buf.extend_from_slice(part);
    }
    let images = extractor.extract_images(&buf, false, None);
    assert_eq!(images.len(), 3);
    assert_eq!(images[0].index, 0);
    assert_eq!(images[1].index, 1);
    assert_eq!(images[2].index, 2);
    assert_eq!(images[0].width, 50);
    assert_eq!(images[1].width, 60);
    assert_eq!(images[2].width, 70);
    assert!(images[0].position < images[1].position);
    assert!(images[1].position < images[2].position);
}

#[test]
fn candidates_under_byte_floor_are_dropped() {
    let extractor = UHTMLImageExtractor::new();
    let small = gif(500, 500, 20);
    assert!(small.len() < 100);
    let images = extractor.extract_images(&small, true, None);
    assert!(images.is_empty());

    let mut buf = small.clone();
    let big = gif(50, 50, 120);
    buf.extend_from_slice(&big);
    let images = extractor.extract_images(&buf, false, None);
    assert_eq!(images.len(), 1);
    assert_eq!(images[0].index, 0);
    assert_eq!(images[0].position, small.len());
}

#[test]
fn filter_modes_on_small_image() {
    let extractor = UHTMLImageExtractor::new();
    let buf = gif(15, 15, 120);

    let default_mode = extractor.extract_images(&buf, false, None);
    assert!(default_mode.is_empty());

    let include_all = extractor.extract_images(&buf, true, None);
    assert_eq!(include_all.len(), 1);
    assert_eq!(include_all[0].width, 15);
    assert_eq!(include_all[0].height, 15);

    let explicit_min = extractor.extract_images(&buf, false, Some((10, 10)));
    assert_eq!(explicit_min.len(), 1);
}
