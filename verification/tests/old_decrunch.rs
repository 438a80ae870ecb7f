use radiant::{ByteCursor, Rgbe};

/// The radiance of a pixel's three channels: `mantissa * 2^(e - 128) / 255`.
fn channels(p: Rgbe) -> (f32, f32, f32) {
    let d = 2f32.powi(p.e as i32 - 128) / 255f32;
    (p.r as f32 * d, p.g as f32 * d, p.b as f32 * d)
}

#[test]
fn old_decrunch_trivial() {
    let reader = b"#?RADIANCE\0\n\n-Y 1 +X 1\n\xff\x00\xff\x80";
    let mut cursor = ByteCursor::new(reader.to_vec());
    let image = radiant::load(&mut cursor).unwrap();
    assert_eq!(image.width, 1);
    assert_eq!(image.height, 1);
    assert_eq!(&image.data[..], &[Rgbe { r: 255, g: 0, b: 255, e: 128 }]);
    assert_eq!(channels(image.data[0]), (1.0, 0.0, 1.0));
}

#[test]
fn old_decrunch_rle() {
    let reader = b"#?RADIANCE\0\n\n-Y 1 +X 2\n\xff\x00\xff\x80\x01\x01\x01\x01";
    let mut cursor = ByteCursor::new(reader.to_vec());
    let image = radiant::load(&mut cursor).unwrap();
    assert_eq!(image.width, 2);
    assert_eq!(image.height, 1);
    assert_eq!(
        &image.data[..],
        &[
            Rgbe { r: 255, g: 0, b: 255, e: 128 },
            Rgbe { r: 255, g: 0, b: 255, e: 128 },
        ]
    );
    assert_eq!(channels(image.data[0]), (1.0, 0.0, 1.0));
    assert_eq!(channels(image.data[1]), (1.0, 0.0, 1.0));
}

#[test]
fn old_decrunch_rle_two_scanlines() {
    let reader = b"#?RADIANCE\0\n\n-Y 2 +X 2\n\
                 \xff\x00\xff\x80\x01\x01\x01\x01\
                 \x00\xff\x00\x80\x01\x01\x01\x01";
    let mut cursor = ByteCursor::new(reader.to_vec());
    let image = radiant::load(&mut cursor).unwrap();
    assert_eq!(image.width, 2);
    assert_eq!(image.height, 2);
    assert_eq!(
        &image.data[..],
        &[
            Rgbe { r: 255, g: 0, b: 255, e: 128 },
            Rgbe { r: 255, g: 0, b: 255, e: 128 },
            Rgbe { r: 0, g: 255, b: 0, e: 128 },
            Rgbe { r: 0, g: 255, b: 0, e: 128 },
        ]
    );
    assert_eq!(channels(image.data[0]), (1.0, 0.0, 1.0));
    assert_eq!(channels(image.data[1]), (1.0, 0.0, 1.0));
    assert_eq!(channels(image.data[2]), (0.0, 1.0, 0.0));
    assert_eq!(channels(image.data[3]), (0.0, 1.0, 0.0));
}

#[test]
fn old_decrunch_zero_length_run() {
    let reader = b"#?RADIANCE\0\n\n-Y 1 +X 1\n\xff\x00\xff\x80\x01\x01\x01\x00";
    let mut cursor = ByteCursor::new(reader.to_vec());
    let image = radiant::load(&mut cursor).unwrap();
    assert_eq!(image.width, 1);
    assert_eq!(image.height, 1);
    assert_eq!(&image.data[..], &[Rgbe { r: 255, g: 0, b: 255, e: 128 }]);
    assert_eq!(channels(image.data[0]), (1.0, 0.0, 1.0));
}
