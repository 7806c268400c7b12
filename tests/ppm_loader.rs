use tinyppm::ppm_loader::{
    convert_rgb_to_argb, decode_image, extract_image_size, is_image_24bpp, parse_usize,
    read_image_info, validate_color_depth, validate_ppm_image, PPMImage,
};
use tinyppm::tinypmm_error::TinyppmError;

fn stream(header: &str, body: &[u8]) -> Vec<u8> {
    let mut data = header.as_bytes().to_vec();
    data.extend_from_slice(body);
    data
}

fn decode_ok(data: &[u8]) -> PPMImage {
    match decode_image(data) {
        Ok(image) => image,
        Err(e) => panic!("unexpected error: {:?}", e),
    }
}

fn decode_err(data: &[u8]) -> TinyppmError {
    match decode_image(data) {
        Ok(image) => panic!("unexpected image {}x{}", image.width(), image.height()),
        Err(e) => e,
    }
}

#[test]
fn two_pixel_scenario() {
    let data = stream("P6\n2 1\n255\n", &[0xFF, 0x00, 0x00, 0x00, 0xFF, 0x00]);
    let image = decode_ok(&data);
    assert_eq!(image.width(), 2);
    assert_eq!(image.height(), 1);
    assert_eq!(image.pixels(), &vec![0xFF0000u32, 0x00FF00u32]);
}

#[test]
fn maxval_100_is_unsupported() {
    let data = stream("P6\n2 1\n100\n", &[0xFF, 0x00, 0x00, 0x00, 0xFF, 0x00]);
    assert_eq!(decode_err(&data), TinyppmError::UnsupportedBPP);
}

#[test]
fn single_pixel_round_trip() {
    let samples: [u8; 6] = [0x00, 0x01, 0x7F, 0x80, 0xAB, 0xFF];
    for &r in samples.iter() {
        for &g in samples.iter() {
            for &b in samples.iter() {
                let image = decode_ok(&stream("P6\n1 1\n255\n", &[r, g, b]));
                let expected = ((r as u32) << 16) | ((g as u32) << 8) | (b as u32);
                assert_eq!(image.pixels(), &vec![expected]);
                assert_eq!(image.pixels()[0] >> 24, 0);
            }
        }
    }
}

#[test]
fn ascii_magic_is_invalid_header() {
    let data = stream("P3\n2 1\n255\n", &[0xFF, 0x00, 0x00, 0x00, 0xFF, 0x00]);
    assert_eq!(decode_err(&data), TinyppmError::InvalidHeader);
    let ascii = stream("P3\n1 1\n255\n", b"255 0 0\n");
    assert_eq!(decode_err(&ascii), TinyppmError::InvalidHeader);
}

#[test]
fn magic_with_extra_text_is_invalid_header() {
    assert_eq!(decode_err(b"P6 \n1 1\n255\n\x01\x02\x03"), TinyppmError::InvalidHeader);
    assert_eq!(decode_err(b" P6\n1 1\n255\n\x01\x02\x03"), TinyppmError::InvalidHeader);
    assert_eq!(decode_err(b"p6\n1 1\n255\n\x01\x02\x03"), TinyppmError::InvalidHeader);
}

#[test]
fn missing_header_lines_is_invalid_header() {
    assert_eq!(decode_err(b""), TinyppmError::InvalidHeader);
    assert_eq!(decode_err(b"P6"), TinyppmError::InvalidHeader);
    assert_eq!(decode_err(b"P6\n1 1\n"), TinyppmError::InvalidHeader);
    assert_eq!(decode_err(b"P6\n1 1\n255"), TinyppmError::InvalidHeader);
}

#[test]
fn maxval_65535_is_unsupported() {
    let data = stream("P6\n1 1\n65535\n", &[0, 0, 0, 0, 0, 0]);
    assert_eq!(decode_err(&data), TinyppmError::UnsupportedBPP);
}

#[test]
fn maxval_zero_is_unsupported() {
    let data = stream("P6\n1 1\n0\n", &[0, 0, 0]);
    assert_eq!(decode_err(&data), TinyppmError::UnsupportedBPP);
}

#[test]
fn maxval_not_a_number_is_unsupported() {
    let data = stream("P6\n1 1\nabc\n", &[0, 0, 0]);
    assert_eq!(decode_err(&data), TinyppmError::UnsupportedBPP);
    let empty = stream("P6\n1 1\n\n", &[0, 0, 0]);
    assert_eq!(decode_err(&empty), TinyppmError::UnsupportedBPP);
}

#[test]
fn short_body_is_size_mismatch() {
    let data = stream("P6\n2 2\n255\n", &[7u8; 10]);
    assert_eq!(decode_err(&data), TinyppmError::FileSizeMismatch);
}

#[test]
fn long_body_is_size_mismatch() {
    let data = stream("P6\n2 2\n255\n", &[7u8; 13]);
    assert_eq!(decode_err(&data), TinyppmError::FileSizeMismatch);
}

#[test]
fn huge_dimensions_are_size_mismatch() {
    let header = format!("P6\n{} {}\n255\n", usize::MAX, usize::MAX);
    assert_eq!(decode_err(&stream(&header, &[0, 0, 0])), TinyppmError::FileSizeMismatch);
}

#[test]
fn pixel_count_is_width_times_height() {
    let body: Vec<u8> = (0..18u8).collect();
    let image = decode_ok(&stream("P6\n3 2\n255\n", &body));
    assert_eq!(image.width(), 3);
    assert_eq!(image.height(), 2);
    assert_eq!(image.pixels().len(), 6);
    assert_eq!(image.pixels()[5], 0x0F1011);
}

#[test]
fn empty_image_decodes() {
    let image = decode_ok(b"P6\n0 5\n255\n");
    assert_eq!(image.width(), 0);
    assert_eq!(image.height(), 5);
    assert!(image.pixels().is_empty());
}

#[test]
fn crlf_header_lines_are_accepted() {
    let image = decode_ok(&stream("P6\r\n1 1\r\n255\r\n", &[1, 2, 3]));
    assert_eq!(image.pixels(), &vec![0x010203u32]);
}

#[test]
fn bad_dimension_line_is_invalid_image_size() {
    let data = stream("P6\nx 1\n255\n", &[0, 0, 0]);
    assert_eq!(decode_err(&data), TinyppmError::InvalidImageSize);
    let single = stream("P6\n1\n255\n", &[0, 0, 0]);
    assert_eq!(decode_err(&single), TinyppmError::InvalidImageSize);
}

#[test]
fn magic_checked_before_dimensions() {
    let data = stream("P5\nx y\nabc\n", &[]);
    assert_eq!(decode_err(&data), TinyppmError::InvalidHeader);
}

#[test]
fn dimensions_checked_before_maxval() {
    let data = stream("P6\nx y\nabc\n", &[]);
    assert_eq!(decode_err(&data), TinyppmError::InvalidImageSize);
}

#[test]
fn extract_image_size_reads_two_numbers() {
    assert_eq!(extract_image_size(b"2 1"), Ok((2, 1)));
    assert_eq!(extract_image_size(b"  640\t480  "), Ok((640, 480)));
    assert_eq!(extract_image_size(b"+7 8"), Ok((7, 8)));
}

#[test]
fn extract_image_size_uses_first_and_last_words() {
    assert_eq!(extract_image_size(b"1 2 3"), Ok((1, 3)));
    assert_eq!(extract_image_size(b"4 junk 5"), Ok((4, 5)));
}

#[test]
fn extract_image_size_rejects_bad_lines() {
    assert_eq!(extract_image_size(b""), Err(TinyppmError::InvalidImageSize));
    assert_eq!(extract_image_size(b"   "), Err(TinyppmError::InvalidImageSize));
    assert_eq!(extract_image_size(b"5"), Err(TinyppmError::InvalidImageSize));
    assert_eq!(extract_image_size(b"-1 2"), Err(TinyppmError::InvalidImageSize));
    assert_eq!(extract_image_size(b"2 1x"), Err(TinyppmError::InvalidImageSize));
    assert_eq!(extract_image_size(b"1 99999999999999999999999"), Err(TinyppmError::InvalidImageSize));
}

#[test]
fn parse_usize_values() {
    assert_eq!(parse_usize(b"0"), Some(0));
    assert_eq!(parse_usize(b"255"), Some(255));
    assert_eq!(parse_usize(b"00255"), Some(255));
    assert_eq!(parse_usize(b"+12"), Some(12));
    assert_eq!(parse_usize(usize::MAX.to_string().as_bytes()), Some(usize::MAX));
}

#[test]
fn parse_usize_rejects() {
    assert_eq!(parse_usize(b""), None);
    assert_eq!(parse_usize(b"+"), None);
    assert_eq!(parse_usize(b"-1"), None);
    assert_eq!(parse_usize(b"1 "), None);
    assert_eq!(parse_usize(b"12a"), None);
    assert_eq!(parse_usize(b"++1"), None);
    let over = format!("{}0", usize::MAX);
    assert_eq!(parse_usize(over.as_bytes()), None);
}

#[test]
fn is_image_24bpp_only_for_255() {
    assert!(is_image_24bpp(b"255"));
    assert!(is_image_24bpp(b"+255"));
    assert!(!is_image_24bpp(b"254"));
    assert!(!is_image_24bpp(b"65535"));
    assert!(!is_image_24bpp(b"255 "));
    assert!(!is_image_24bpp(b"ff"));
}

#[test]
fn validate_ppm_image_checks_magic() {
    assert_eq!(validate_ppm_image(b"P6"), Ok(()));
    assert_eq!(validate_ppm_image(b"P3"), Err(TinyppmError::InvalidHeader));
    assert_eq!(validate_ppm_image(b"P"), Err(TinyppmError::InvalidHeader));
    assert_eq!(validate_ppm_image(b"P66"), Err(TinyppmError::InvalidHeader));
}

#[test]
fn validate_color_depth_checks_maxval() {
    assert_eq!(validate_color_depth(b"255"), Ok(()));
    assert_eq!(validate_color_depth(b"100"), Err(TinyppmError::UnsupportedBPP));
}

#[test]
fn read_image_info_gives_body_start() {
    let data = stream("P6\n2 1\n255\n", &[1, 2, 3, 4, 5, 6]);
    assert_eq!(read_image_info(&data), Ok((2, 1, 11)));
    let crlf = stream("P6\r\n3 4\r\n255\r\n", &[]);
    assert_eq!(read_image_info(&crlf), Ok((3, 4, 14)));
    assert_eq!(read_image_info(b"P6\n2 1\n"), Err(TinyppmError::InvalidHeader));
}

#[test]
fn convert_rgb_to_argb_packs_triples() {
    let rgb: [u8; 6] = [0x12, 0x34, 0x56, 0xFF, 0xFE, 0xFD];
    assert_eq!(convert_rgb_to_argb(2, 1, &rgb), vec![0x123456u32, 0xFFFEFDu32]);
    assert_eq!(convert_rgb_to_argb(1, 2, &rgb), vec![0x123456u32, 0xFFFEFDu32]);
    assert_eq!(convert_rgb_to_argb(0, 0, &[]), Vec::<u32>::new());
}
