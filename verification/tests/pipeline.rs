//! The ingestion pipeline, end to end against the real image and base64
//! crates.

use std::io::Cursor;

use base64::Engine;
use tanuki_quiz::index::AssetIndex;
use tanuki_quiz::ingest::{ingest, ingest_from_base64, IngestError};

fn solid_png_sized(width: u32, height: u32, rgba: [u8; 4]) -> Vec<u8> {
    let mut img = image::RgbaImage::new(width, height);
    for p in img.pixels_mut() {
        *p = image::Rgba(rgba);
    }
    let mut buf: Vec<u8> = Vec::new();
    image::DynamicImage::ImageRgba8(img)
        .write_to(&mut Cursor::new(&mut buf), image::ImageOutputFormat::Png)
        .unwrap();
    buf
}

fn now_stamp() -> String {
    String::from("2024-01-01T00:00:00+00:00")
}

#[test]
fn red_png_ingestion_succeeds_with_thumbnail_and_fingerprint() {
    let mut index = AssetIndex::new();
    let bytes = solid_png_sized(10, 10, [255, 0, 0, 255]);
    let out = ingest(&mut index, &bytes, "tanuki-test.png", now_stamp()).unwrap();
    assert_eq!(out.record.filename, "tanuki-test.png");
    assert!(out.record.thumb);
    assert_eq!(out.record.size, bytes.len() as u64);
    let hash = out.record.phash.clone().unwrap();
    assert_eq!(hash.len(), 16);
    assert!(hash.chars().all(|c| c.is_ascii_hexdigit()));
    assert_eq!(index.records.len(), 1);
}

#[test]
fn duplicate_upload_under_second_name_is_found_at_distance_zero() {
    let mut index = AssetIndex::new();
    let bytes = solid_png_sized(10, 10, [255, 0, 0, 255]);
    ingest(&mut index, &bytes, "tanuki-test.png", now_stamp()).unwrap();
    ingest(&mut index, &bytes, "tanuki-test2.png", now_stamp()).unwrap();
    let similar = index.find_similar(&String::from("tanuki-test.png"), 0);
    assert_eq!(similar.len(), 1);
    assert_eq!(similar[0].filename, "tanuki-test2.png");
    let back = index.find_similar(&String::from("tanuki-test2.png"), 0);
    assert_eq!(back.len(), 1);
    assert_eq!(back[0].filename, "tanuki-test.png");
}

#[test]
fn filename_collisions_get_numeric_suffixes() {
    let mut index = AssetIndex::new();
    let bytes = solid_png_sized(8, 8, [0, 255, 0, 255]);
    let first = ingest(&mut index, &bytes, "pic.png", now_stamp()).unwrap();
    let second = ingest(&mut index, &bytes, "pic.png", now_stamp()).unwrap();
    let third = ingest(&mut index, &bytes, "pic.png", now_stamp()).unwrap();
    assert_eq!(first.record.filename, "pic.png");
    assert_eq!(second.record.filename, "pic-1.png");
    assert_eq!(third.record.filename, "pic-2.png");
    assert_eq!(index.records.len(), 3);
}

#[test]
fn path_separators_are_rejected() {
    let mut index = AssetIndex::new();
    let bytes = solid_png_sized(8, 8, [0, 255, 0, 255]);
    let err = match ingest(&mut index, &bytes, "../evil.png", now_stamp()) {
        Err(e) => e,
        Ok(_) => panic!("separator accepted"),
    };
    assert_eq!(err, IngestError::UnsafeFilename);
    let err = match ingest(&mut index, &bytes, "a\\b.png", now_stamp()) {
        Err(e) => e,
        Ok(_) => panic!("separator accepted"),
    };
    assert_eq!(err, IngestError::UnsafeFilename);
    assert_eq!(index.records.len(), 0);
}

#[test]
fn non_image_bytes_are_rejected_and_leave_the_index_alone() {
    let mut index = AssetIndex::new();
    let bytes = vec![0u8, 1, 2, 3];
    let err = match ingest(&mut index, &bytes, "broken.png", now_stamp()) {
        Err(e) => e,
        Ok(_) => panic!("garbage accepted"),
    };
    assert_eq!(err, IngestError::InvalidImageData);
    assert_eq!(index.records.len(), 0);
}

#[test]
fn thumbnail_fits_the_bounding_box() {
    let mut index = AssetIndex::new();
    let bytes = solid_png_sized(400, 300, [0, 0, 255, 255]);
    let out = ingest(&mut index, &bytes, "big.png", now_stamp()).unwrap();
    let thumb = image::load_from_memory(&out.thumb_png).unwrap();
    let w = image::GenericImageView::dimensions(&thumb).0;
    let h = image::GenericImageView::dimensions(&thumb).1;
    assert!(w <= 320 && h <= 240);
    assert!(w < 400);
}

#[test]
fn base64_envelope_round_trips() {
    let mut index = AssetIndex::new();
    let bytes = solid_png_sized(10, 10, [255, 0, 0, 255]);
    let b64 = base64::engine::general_purpose::STANDARD.encode(&bytes);
    let padded = format!("  {}\n", b64);
    let out = ingest_from_base64(&mut index, &padded, "enveloped.png", now_stamp()).unwrap();
    assert_eq!(out.record.filename, "enveloped.png");
    assert_eq!(index.records.len(), 1);
}

#[test]
fn malformed_base64_is_rejected_before_image_decoding() {
    let mut index = AssetIndex::new();
    let err = match ingest_from_base64(&mut index, "!!!not-base64!!!", "x.png", now_stamp()) {
        Err(e) => e,
        Ok(_) => panic!("bad base64 accepted"),
    };
    assert_eq!(err, IngestError::InvalidBase64);
    assert_eq!(index.records.len(), 0);
}

#[test]
fn serialized_ingestions_of_distinct_names_keep_every_record() {
    // concurrent uploads serialize on the catalog lock; any interleaving is
    // some order of these calls
    let mut index = AssetIndex::new();
    let bytes = solid_png_sized(8, 8, [9, 9, 9, 255]);
    for i in 0..10 {
        let name = format!("item{}.png", i);
        ingest(&mut index, &bytes, &name, now_stamp()).unwrap();
    }
    assert_eq!(index.records.len(), 10);
    for i in 0..10 {
        let name = format!("item{}.png", i);
        assert!(index.records.iter().any(|r| r.filename == name));
    }
}
