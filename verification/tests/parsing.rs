use uhtml_pics_parse::extractor::{ExtractionError, UHTMLImageExtractor, passes_size_filter};
use uhtml_pics_parse::signatures::{ImageFormat, SignatureSpec, default_signatures, mime_type};
use uhtml_pics_parse::text::{SizeParseError, parse_size_string};

#[test]
fn size_string_well_formed() {
    assert_eq!(parse_size_string("200x150"), Ok(Some((200, 150))));
    assert_eq!(parse_size_string("1x1"), Ok(Some((1, 1))));
    assert_eq!(parse_size_string("4294967295x2"), Ok(Some((u32::MAX, 2))));
}

#[test]
fn size_string_bad_format() {
    assert_eq!(parse_size_string("200"), Err(SizeParseError::BadFormat));
    assert_eq!(parse_size_string(""), Err(SizeParseError::BadFormat));
    assert_eq!(parse_size_string("2x3x4"), Err(SizeParseError::BadFormat));
}

#[test]
fn size_string_bad_width() {
    assert_eq!(parse_size_string("ax100"), Err(SizeParseError::BadWidth));
    assert_eq!(parse_size_string("x100"), Err(SizeParseError::BadWidth));
    assert_eq!(parse_size_string("4294967296x5"), Err(SizeParseError::BadWidth));
}

#[test]
fn size_string_bad_height() {
    assert_eq!(parse_size_string("100xa"), Err(SizeParseError::BadHeight));
    assert_eq!(parse_size_string("100x"), Err(SizeParseError::BadHeight));
}

#[test]
fn size_string_zero_rejected() {
    assert_eq!(parse_size_string("0x100"), Err(SizeParseError::Zero));
    assert_eq!(parse_size_string("100x0"), Err(SizeParseError::Zero));
    assert!(!SizeParseError::Zero.message().is_empty());
}

#[test]
fn size_filter_decisions() {
    assert!(!passes_size_filter(15, 15, false, None));
    assert!(passes_size_filter(15, 15, true, None));
    assert!(passes_size_filter(15, 15, false, Some((10, 10))));
    assert!(!passes_size_filter(19, 20, false, None));
    assert!(!passes_size_filter(20, 19, false, None));
    assert!(passes_size_filter(20, 20, false, None));
    assert!(!passes_size_filter(15, 25, false, Some((10, 30))));
}

#[test]
fn file_extensions_for_mime_types() {
    let extractor = UHTMLImageExtractor::new();
    assert_eq!(extractor.get_file_extension("image/jpeg"), ".jpg");
    assert_eq!(extractor.get_file_extension("image/png"), ".png");
    assert_eq!(extractor.get_file_extension("image/gif"), ".gif");
    assert_eq!(extractor.get_file_extension("image/webp"), ".webp");
    assert_eq!(extractor.get_file_extension("image/bmp"), ".bmp");
    assert_eq!(extractor.get_file_extension("text/plain"), ".img");
}

#[test]
fn mime_types_per_format() {
    assert_eq!(mime_type(ImageFormat::Jpeg), "image/jpeg");
    assert_eq!(mime_type(ImageFormat::Png), "image/png");
    assert_eq!(mime_type(ImageFormat::Gif), "image/gif");
}

#[test]
fn standard_signature_table() {
    let sigs = default_signatures();
    assert_eq!(sigs.len(), 4);
    assert_eq!(sigs[0].header, vec![0xff, 0xd8, 0xff]);
    assert_eq!(sigs[0].footer, vec![0xff, 0xd9]);
    assert_eq!(sigs[0].end_adjust, 2);
    assert_eq!(sigs[0].format, ImageFormat::Jpeg);
    assert_eq!(sigs[1].header, vec![0x89, 0x50, 0x4e, 0x47, 0x0d, 0x0a, 0x1a, 0x0a]);
    assert_eq!(sigs[1].footer, vec![0x49, 0x45, 0x4e, 0x44, 0xae, 0x42, 0x60, 0x82]);
    assert_eq!(sigs[1].end_adjust, 8);
    assert_eq!(sigs[1].format, ImageFormat::Png);
    assert_eq!(sigs[2].header, b"GIF87a".to_vec());
    assert_eq!(sigs[3].header, b"GIF89a".to_vec());
    assert_eq!(sigs[2].footer, vec![0x00, 0x3b]);
    assert_eq!(sigs[3].footer, vec![0x00, 0x3b]);
    assert_eq!(sigs[2].end_adjust, 2);
    assert_eq!(sigs[3].end_adjust, 2);
    assert_eq!(sigs[2].format, ImageFormat::Gif);
    assert_eq!(sigs[3].format, ImageFormat::Gif);
}

#[test]
fn find_bytes_first_occurrence() {
    let extractor = UHTMLImageExtractor::new();
    let data = b"hello world, world";
    assert_eq!(extractor.find_bytes(data, b"world", 0), Some(6));
    assert_eq!(extractor.find_bytes(data, b"world", 7), Some(13));
    assert_eq!(extractor.find_bytes(data, b"world", 14), None);
    assert_eq!(extractor.find_bytes(data, b"moon", 0), None);
    let rep = b"aaaa";
    assert_eq!(extractor.find_bytes(rep, b"aa", 0), Some(0));
    assert_eq!(extractor.find_bytes(rep, b"aa", 1), Some(1));
}

#[test]
fn single_image_range_with_footer() {
    let extractor = UHTMLImageExtractor::new();
    let sigs = default_signatures();
    let mut data = b"GIF89a".to_vec();
    data.extend_from_slice(&[0x0a, 0x00, 0x0a, 0x00]);
    data.extend(std::iter::repeat(0x01).take(30));
    data.extend_from_slice(&[0x00, 0x3b]);
    data.extend(std::iter::repeat(0x07).take(9));
    let r = extractor.extract_single_image(&data, 0, &sigs[3], None).unwrap();
    assert_eq!(r.len(), data.len() - 9);
    assert_eq!(&r[..], &data[..data.len() - 9]);
}

#[test]
fn single_image_invalid_range_is_rejected() {
    let extractor = UHTMLImageExtractor::new();
    let sig = SignatureSpec {
        format: ImageFormat::Gif,
        header: b"GIF89a".to_vec(),
        footer: vec![0x00, 0x3b],
        end_adjust: usize::MAX,
    };
    let mut data = b"GIF89a".to_vec();
    data.extend_from_slice(&[0x00, 0x3b]);
    let r = extractor.extract_single_image(&data, 0, &sig, None);
    assert!(matches!(r, Err(ExtractionError::ImageParse(_))));
}

#[test]
fn custom_signature_table_injection() {
    let extractor = UHTMLImageExtractor::new();
    let table = vec![SignatureSpec {
        format: ImageFormat::Png,
        header: b"ABCD".to_vec(),
        footer: b"XY".to_vec(),
        end_adjust: 2,
    }];
    let mut buf = vec![0u8; 17];
    buf.extend_from_slice(b"ABCD");
    buf.extend(std::iter::repeat(0x22u8).take(140));
    buf.extend_from_slice(b"XY");
    buf.extend(std::iter::repeat(0u8).take(25));
    let images = extractor.extract_images_with_table(&buf, &table, false, None);
    assert_eq!(images.len(), 1);
    assert_eq!(images[0].position, 17);
    assert_eq!(images[0].end_position, 17 + 4 + 140 + 2);
    assert_eq!(images[0].image_type, "image/png");
    // Nothing resolvable in the fake bytes: the placeholder passes the filter.
    assert_eq!(images[0].width, 100);
    assert_eq!(images[0].height, 100);
}
