//! The fingerprint engine: hashes, distances, malformed inputs.

use std::io::Cursor;

use tanuki_quiz::fingerprint::{distance, fingerprint, hamming_hex, HashError};

fn solid_png(width: u32, height: u32, rgba: [u8; 4]) -> Vec<u8> {
    let mut img = image::RgbaImage::new(width, height);
    for p in img.pixels_mut() {
        *p = image::Rgba(rgba);
    }
    let mut buf: Vec<u8> = Vec::new();
    image::DynamicImage::ImageRgba8(img)
        .write_to(&mut Cursor::new(&mut buf), image::ImageOutputFormat::Png)
        .unwrap();
    buf
}

#[test]
fn identical_images_have_identical_fingerprints_at_distance_zero() {
    let bytes = solid_png(10, 10, [255, 0, 0, 255]);
    let h1 = fingerprint(&bytes).unwrap();
    let h2 = fingerprint(&bytes).unwrap();
    assert_eq!(h1, h2);
    assert_eq!(hamming_hex(&h1, &h2), Some(0));
    assert_eq!(distance(&h1, &h2), Ok(0));
}

#[test]
fn solid_image_fingerprint_has_every_bit_set() {
    // every luminance sample equals the mean, so every bit is set
    let bytes = solid_png(10, 10, [255, 0, 0, 255]);
    let h = fingerprint(&bytes).unwrap();
    assert_eq!(h, "ffffffffffffffff");
}

#[test]
fn fingerprint_is_sixteen_hex_characters() {
    let bytes = solid_png(10, 10, [0, 128, 255, 255]);
    let h = fingerprint(&bytes).unwrap();
    assert_eq!(h.len(), 16);
    assert!(h.chars().all(|c| c.is_ascii_hexdigit()));
}

#[test]
fn fingerprint_of_garbage_is_none() {
    let bytes = vec![1u8, 2, 3, 4, 5];
    assert!(fingerprint(&bytes).is_none());
}

#[test]
fn mismatched_length_hashes_are_malformed() {
    assert_eq!(hamming_hex("00000000000000ff", "00ff"), None);
    assert_eq!(hamming_hex("00ff", "00000000000000ff"), None);
    assert_eq!(
        distance("00000000000000ff", "00ff"),
        Err(HashError::MalformedHash)
    );
    // both valid hex, both the same wrong width
    assert_eq!(distance("abcd", "abcd"), Err(HashError::MalformedHash));
}

#[test]
fn non_hex_hashes_are_malformed() {
    assert_eq!(
        distance("zzzzzzzzzzzzzzzz", "0000000000000000"),
        Err(HashError::MalformedHash)
    );
    assert_eq!(hamming_hex("0000000000000000", "000000000000000g"), None);
}

#[test]
fn hamming_distance_exact_values() {
    assert_eq!(hamming_hex("0000000000000000", "000000000000000f"), Some(4));
    assert_eq!(hamming_hex("ffffffffffffffff", "0000000000000000"), Some(64));
    assert_eq!(hamming_hex("00000000000000F0", "00000000000000f0"), Some(0));
    assert_eq!(distance("8000000000000001", "0000000000000000"), Ok(2));
}
