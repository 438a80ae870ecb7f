use radiant::{ByteCursor, LoadError, Loader, Rgbe};

/// The radiance of a pixel's three channels: `mantissa * 2^(e - 128) / 255`.
fn channels(p: Rgbe) -> (f32, f32, f32) {
    let d = 2f32.powi(p.e as i32 - 128) / 255f32;
    (p.r as f32 * d, p.g as f32 * d, p.b as f32 * d)
}

fn load_bytes(bytes: &[u8]) -> Result<radiant::Image, LoadError> {
    let mut cursor = ByteCursor::new(bytes.to_vec());
    radiant::load(&mut cursor)
}

#[test]
fn boundary_width_seven_uses_old_format() {
    // The first quadruplet looks exactly like the new-format sentinel, but
    // a scanline of length 7 must still be decoded as old format, so the
    // quadruplet is the first literal pixel.
    let reader = b"#?RADIANCE\n\n-Y 1 +X 7\n\
        \x02\x02\x00\x07\
        \x03\x04\x05\x80\x03\x04\x05\x80\x03\x04\x05\x80\
        \x03\x04\x05\x80\x03\x04\x05\x80\x03\x04\x05\x80";
    let image = load_bytes(reader).unwrap();
    assert_eq!(image.width, 7);
    assert_eq!(image.height, 1);
    assert_eq!(image.data[0], Rgbe { r: 2, g: 2, b: 0, e: 7 });
    for &p in image.data[1..].iter() {
        assert_eq!(p, Rgbe { r: 3, g: 4, b: 5, e: 128 });
    }
}

#[test]
fn malformed_magic_fails_with_file_format() {
    let reader = b"#?WRONGGGG\n\n-Y 1 +X 1\n\xff\x00\xff\x80";
    assert_eq!(load_bytes(reader).unwrap_err(), LoadError::FileFormat);
}

#[test]
fn empty_input_fails_with_eof() {
    assert_eq!(load_bytes(b"").unwrap_err(), LoadError::Eof);
}

#[test]
fn truncated_pixel_data_fails_with_eof() {
    let reader = b"#?RADIANCE\n\n-Y 1 +X 2\n\xff\x00\xff\x80";
    assert_eq!(load_bytes(reader).unwrap_err(), LoadError::Eof);
}

#[test]
fn missing_resolution_line_fails_with_eof() {
    let reader = b"#?RADIANCE\n\n";
    assert_eq!(load_bytes(reader).unwrap_err(), LoadError::Eof);
}

#[test]
fn wrong_orientation_token_fails_with_header() {
    let reader = b"#?RADIANCE\n\n+Y 1 -X 1\n\xff\x00\xff\x80";
    assert_eq!(load_bytes(reader).unwrap_err(), LoadError::Header);
}

#[test]
fn missing_separator_space_fails_with_header() {
    let reader = b"#?RADIANCE\n\n-Y1 +X 1\n\xff\x00\xff\x80";
    assert_eq!(load_bytes(reader).unwrap_err(), LoadError::Header);
}

#[test]
fn huge_dimension_fails_with_header() {
    let reader = b"#?RADIANCE\n\n-Y 99999999999999999999 +X 1\n";
    assert_eq!(load_bytes(reader).unwrap_err(), LoadError::Header);
}

#[test]
fn dimension_product_overflow_fails_with_header() {
    let reader = b"#?RADIANCE\n\n-Y 18446744073709551615 +X 2\n";
    assert_eq!(load_bytes(reader).unwrap_err(), LoadError::Header);
}

#[test]
fn old_format_run_past_end_fails_with_rle() {
    // One literal pixel, then a repeat of count 5 into a scanline with
    // only one slot left.
    let reader = b"#?RADIANCE\n\n-Y 1 +X 2\n\xff\x00\xff\x80\x01\x01\x01\x05";
    assert_eq!(load_bytes(reader).unwrap_err(), LoadError::Rle);
}

#[test]
fn old_format_shift_overflow_fails_with_rle() {
    // Nine consecutive zero-count repeat markers push the accumulated
    // shift past the width of the length type.
    let mut reader = b"#?RADIANCE\n\n-Y 1 +X 2\n\xff\x00\xff\x80".to_vec();
    for _ in 0..9 {
        reader.extend_from_slice(b"\x01\x01\x01\x00");
    }
    assert_eq!(load_bytes(&reader).unwrap_err(), LoadError::Rle);
}

#[test]
fn new_format_run_past_end_fails_with_rle() {
    // A run of 9 into an 8-pixel scanline.
    let reader = b"#?RADIANCE\n\n-Y 1 +X 8\n\x02\x02\x08\x00\x89\xff";
    assert_eq!(load_bytes(reader).unwrap_err(), LoadError::Rle);
}

#[test]
fn new_format_zero_length_literal_is_no_op() {
    // The red plane opens with a zero-length literal before its run.
    let reader = b"#?RADIANCE\n\n-Y 1 +X 8\n\
        \x02\x02\x08\x00\
        \x00\x88\xff\x88\x00\x88\xff\x88\x80";
    let image = load_bytes(reader).unwrap();
    assert_eq!(&image.data[..], &[Rgbe { r: 255, g: 0, b: 255, e: 128 }; 8]);
}

#[test]
fn first_quadruplet_marker_bytes_are_a_literal_pixel() {
    // The dispatch stores the first quadruplet as a pixel even when its
    // bytes coincide with the repeat marker; only later quadruplets can
    // signal a repeat.
    let reader = b"#?RADIANCE\n\n-Y 1 +X 2\n\x01\x01\x01\x05\x02\x03\x04\x80";
    let image = load_bytes(reader).unwrap();
    assert_eq!(
        &image.data[..],
        &[
            Rgbe { r: 1, g: 1, b: 1, e: 5 },
            Rgbe { r: 2, g: 3, b: 4, e: 128 },
        ]
    );
}

#[test]
fn marker_chaining_extends_run_counts() {
    // A second consecutive marker shifts its count left by eight bits:
    // one literal pixel, a repeat of 255, then a repeat of 1 << 8 = 256.
    let reader = b"#?RADIANCE\n\n-Y 1 +X 512\n\
        \xff\x00\xff\x80\x01\x01\x01\xff\x01\x01\x01\x01";
    let image = load_bytes(reader).unwrap();
    assert_eq!(image.data.len(), 512);
    for &p in image.data.iter() {
        assert_eq!(p, Rgbe { r: 255, g: 0, b: 255, e: 128 });
    }
}

#[test]
fn empty_image_loads() {
    let image = load_bytes(b"#?RADIANCE\n\n-Y 0 +X 0\n").unwrap();
    assert_eq!(image.width, 0);
    assert_eq!(image.height, 0);
    assert!(image.data.is_empty());

    let image = load_bytes(b"#?RADIANCE\n\n-Y 2 +X 0\n").unwrap();
    assert_eq!(image.width, 0);
    assert_eq!(image.height, 2);
    assert!(image.data.is_empty());
}

#[test]
fn resolution_line_tolerates_extra_spaces() {
    let reader = b"#?RADIANCE\n\n  -Y  1   +X  1  \n\xff\x00\xff\x80";
    let image = load_bytes(reader).unwrap();
    assert_eq!(image.width, 1);
    assert_eq!(image.height, 1);
}

#[test]
fn header_paragraph_is_skipped() {
    let reader = b"#?RADIANCE\nFORMAT=32-bit_rle_rgbe\nEXPOSURE=1.0\n\n-Y 1 +X 1\n\xff\x00\xff\x80";
    let image = load_bytes(reader).unwrap();
    assert_eq!(image.width, 1);
    assert_eq!(image.height, 1);
    assert_eq!(image.data[0], Rgbe { r: 255, g: 0, b: 255, e: 128 });
}

#[test]
fn load_twice_from_concatenated_buffer() {
    let file = b"#?RADIANCE\0\n\n-Y 1 +X 2\n\xff\x00\xff\x80\x01\x01\x01\x01";
    let mut doubled = file.to_vec();
    doubled.extend_from_slice(file);
    let mut cursor = ByteCursor::new(doubled);
    let first = radiant::load(&mut cursor).unwrap();
    assert_eq!(cursor.byte_position(), file.len());
    let second = radiant::load(&mut cursor).unwrap();
    assert_eq!(cursor.byte_position(), 2 * file.len());
    assert_eq!(first.width, second.width);
    assert_eq!(first.height, second.height);
    assert_eq!(first.data, second.data);
}

#[test]
fn format_equivalence_old_and_new() {
    // The same eight pixels (255, 255, 255, 128), encoded once as eight
    // old-format literals and once as four new-format runs.
    let mut old_file = b"#?RADIANCE\n\n-Y 1 +X 8\n".to_vec();
    for _ in 0..8 {
        old_file.extend_from_slice(b"\xff\xff\xff\x80");
    }
    let new_file = b"#?RADIANCE\n\n-Y 1 +X 8\n\
        \x02\x02\x08\x00\
        \x88\xff\x88\xff\x88\xff\x88\x80";
    let old_image = load_bytes(&old_file).unwrap();
    let new_image = load_bytes(new_file).unwrap();
    assert_eq!(old_image.data, new_image.data);
    assert_eq!(&old_image.data[..], &[Rgbe { r: 255, g: 255, b: 255, e: 128 }; 8]);
    assert_eq!(channels(old_image.data[0]), (1.0, 1.0, 1.0));
}

#[test]
fn loader_reports_dimensions() {
    let reader = b"#?RADIANCE\n\n-Y 2 +X 3\n";
    let loader = Loader::new(ByteCursor::new(reader.to_vec())).unwrap();
    assert_eq!(loader.width, 3);
    assert_eq!(loader.height, 2);
}

#[test]
fn streaming_matches_whole_image() {
    let reader = b"#?RADIANCE\0\n\n-Y 2 +X 2\n\
                 \xff\x00\xff\x80\x01\x01\x01\x01\
                 \x00\xff\x00\x80\x01\x01\x01\x01";
    let whole = load_bytes(reader).unwrap();

    let loader = Loader::new(ByteCursor::new(reader.to_vec())).unwrap();
    let mut scanlines = loader.scanlines();
    assert_eq!(scanlines.width, 2);
    assert_eq!(scanlines.height, 2);
    let mut buffer = vec![Rgbe { r: 0, g: 0, b: 0, e: 0 }; scanlines.width];
    let mut streamed: Vec<Rgbe> = Vec::new();
    for _ in 0..scanlines.height {
        scanlines.read_scanline(&mut buffer).unwrap();
        streamed.extend_from_slice(&buffer);
    }
    assert_eq!(streamed, whole.data);
}

#[test]
fn short_buffer_is_invalid_input() {
    let reader = b"#?RADIANCE\0\n\n-Y 1 +X 2\n\xff\x00\xff\x80\x01\x01\x01\x01";
    let loader = Loader::new(ByteCursor::new(reader.to_vec())).unwrap();
    let mut scanlines = loader.scanlines();
    let mut short = vec![Rgbe { r: 0, g: 0, b: 0, e: 0 }; 1];
    assert_eq!(
        scanlines.read_scanline(&mut short).unwrap_err(),
        LoadError::InvalidInput
    );
    // Nothing was consumed: a properly sized buffer still reads the row.
    let mut buffer = vec![Rgbe { r: 0, g: 0, b: 0, e: 0 }; 2];
    scanlines.read_scanline(&mut buffer).unwrap();
    assert_eq!(&buffer[..], &[Rgbe { r: 255, g: 0, b: 255, e: 128 }; 2]);
}

#[test]
fn long_buffer_keeps_its_tail() {
    let reader = b"#?RADIANCE\0\n\n-Y 1 +X 2\n\xff\x00\xff\x80\x01\x01\x01\x01";
    let loader = Loader::new(ByteCursor::new(reader.to_vec())).unwrap();
    let mut scanlines = loader.scanlines();
    let sentinel = Rgbe { r: 9, g: 9, b: 9, e: 9 };
    let mut buffer = vec![sentinel; 4];
    scanlines.read_scanline(&mut buffer).unwrap();
    assert_eq!(buffer[0], Rgbe { r: 255, g: 0, b: 255, e: 128 });
    assert_eq!(buffer[1], Rgbe { r: 255, g: 0, b: 255, e: 128 });
    assert_eq!(buffer[2], sentinel);
    assert_eq!(buffer[3], sentinel);
}

#[test]
fn pixel_accessors_are_row_major() {
    let reader = b"#?RADIANCE\0\n\n-Y 2 +X 2\n\
                 \xff\x00\xff\x80\x01\x01\x01\x01\
                 \x00\xff\x00\x80\x01\x01\x01\x01";
    let image = load_bytes(reader).unwrap();
    assert_eq!(image.data.len(), image.width * image.height);
    for y in 0..image.height {
        for x in 0..image.width {
            assert_eq!(image.pixel_offset(x, y), y * image.width + x);
            assert_eq!(*image.pixel(x, y), image.data[y * image.width + x]);
        }
    }
}

#[test]
fn load_image_matches_load() {
    let reader = b"#?RADIANCE\0\n\n-Y 1 +X 8\n\
        \x02\x02\x08\x00\
        \x88\xff\x88\x00\x88\xff\x88\x80";
    let whole = load_bytes(reader).unwrap();
    let via_loader = Loader::new(ByteCursor::new(reader.to_vec()))
        .unwrap()
        .load_image()
        .unwrap();
    assert_eq!(whole.width, via_loader.width);
    assert_eq!(whole.height, via_loader.height);
    assert_eq!(whole.data, via_loader.data);
}
