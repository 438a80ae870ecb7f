use radiant::{ByteCursor, Rgbe};

/// The radiance of a pixel's three channels: `mantissa * 2^(e - 128) / 255`.
fn channels(p: Rgbe) -> (f32, f32, f32) {
    let d = 2f32.powi(p.e as i32 - 128) / 255f32;
    (p.r as f32 * d, p.g as f32 * d, p.b as f32 * d)
}

#[test]
fn new_decrunch_rle() {
    let reader = b"#?RADIANCE\0\n\n-Y 1 +X 8\n\
        \x02\x02\x08\x00\
        \x88\xff\x88\x00\x88\xff\x88\x80";
    let mut cursor = ByteCursor::new(reader.to_vec());
    let image = radiant::load(&mut cursor).unwrap();
    assert_eq!(image.width, 8);
    assert_eq!(image.height, 1);
    assert_eq!(&image.data[..], &[Rgbe { r: 255, g: 0, b: 255, e: 128 }; 8]);
    for &p in image.data.iter() {
        assert_eq!(channels(p), (1.0, 0.0, 1.0));
    }
}

#[test]
fn new_decrunch_zero_length_run() {
    let reader = b"#?RADIANCE\0\n\n-Y 1 +X 8\n\
        \x02\x02\x08\x00\
        \x88\xff\x88\x00\x88\xff\x88\x80\x80\x56";
    let mut cursor = ByteCursor::new(reader.to_vec());
    let image = radiant::load(&mut cursor).unwrap();
    assert_eq!(image.width, 8);
    assert_eq!(image.height, 1);
    assert_eq!(&image.data[..], &[Rgbe { r: 255, g: 0, b: 255, e: 128 }; 8]);
    for &p in image.data.iter() {
        assert_eq!(channels(p), (1.0, 0.0, 1.0));
    }
}

#[test]
fn new_decrunch_ignore_rest() {
    let reader = b"#?RADIANCE\0\n\n-Y 1 +X 8\n\
        \x02\x02\x08\x00\
        \x88\xff\x88\x00\x88\xff\x88\x80";
    let mut doubled = reader.to_vec();
    doubled.extend_from_slice(reader);
    let mut cursor = ByteCursor::new(doubled);
    radiant::load(&mut cursor).unwrap();
    radiant::load(&mut cursor).unwrap();
}
