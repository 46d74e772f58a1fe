//! The asset index: upsert semantics, names, and similarity search.

use tanuki_quiz::index::{index_path, list_entries, AssetIndex, AssetRecord};
use tanuki_quiz::names::{fresh_name, has_path_separator, sanitize_filename};

fn record(name: &str, size: u64, phash: Option<&str>) -> AssetRecord {
    AssetRecord {
        filename: String::from(name),
        size,
        thumb: true,
        phash: phash.map(String::from),
        uploaded_at: String::from("2024-01-01T00:00:00+00:00"),
    }
}

#[test]
fn upsert_same_filename_twice_leaves_one_record() {
    let mut index = AssetIndex::new();
    index.upsert(record("a.png", 10, None));
    index.upsert(record("a.png", 22, Some("ffffffffffffffff")));
    assert_eq!(index.records.len(), 1);
    assert_eq!(index.records[0].filename, "a.png");
    assert_eq!(index.records[0].size, 22);
    assert_eq!(
        index.records[0].phash,
        Some(String::from("ffffffffffffffff"))
    );
}

#[test]
fn upserting_distinct_filenames_loses_nothing() {
    let mut index = AssetIndex::new();
    for i in 0..20u64 {
        index.upsert(record(&format!("photo{}.png", i), i, None));
    }
    assert_eq!(index.records.len(), 20);
    for i in 0..20u64 {
        let name = format!("photo{}.png", i);
        assert!(index.records.iter().any(|r| r.filename == name));
    }
}

#[test]
fn find_similar_zero_distance_returns_exact_duplicate() {
    let mut index = AssetIndex::new();
    index.upsert(record("tanuki-test.png", 10, Some("00ff00ff00ff00ff")));
    index.upsert(record("tanuki-test2.png", 10, Some("00ff00ff00ff00ff")));
    index.upsert(record("other.png", 10, Some("ffffffffffffffff")));
    let similar = index.find_similar(&String::from("tanuki-test.png"), 0);
    assert_eq!(similar.len(), 1);
    assert_eq!(similar[0].filename, "tanuki-test2.png");
}

#[test]
fn find_similar_respects_the_distance_bound() {
    let mut index = AssetIndex::new();
    index.upsert(record("base.png", 1, Some("0000000000000000")));
    index.upsert(record("near.png", 1, Some("0000000000000003")));
    index.upsert(record("far.png", 1, Some("ffffffffffffffff")));
    let close = index.find_similar(&String::from("base.png"), 2);
    assert_eq!(close.len(), 1);
    assert_eq!(close[0].filename, "near.png");
    let all = index.find_similar(&String::from("base.png"), 64);
    assert_eq!(all.len(), 2);
}

#[test]
fn find_similar_of_unknown_or_unfingerprinted_record_is_empty() {
    let mut index = AssetIndex::new();
    index.upsert(record("plain.png", 1, None));
    index.upsert(record("hashed.png", 1, Some("0000000000000000")));
    assert!(index.find_similar(&String::from("missing.png"), 64).is_empty());
    assert!(index.find_similar(&String::from("plain.png"), 64).is_empty());
}

#[test]
fn listing_shows_every_record() {
    let mut index = AssetIndex::new();
    index.upsert(record("a.png", 1, None));
    index.upsert(record("b.png", 2, None));
    let listing = list_entries(&index);
    assert_eq!(listing.len(), 2);
    assert_eq!(listing[0].filename, "a.png");
    assert_eq!(listing[1].filename, "b.png");
    assert_eq!(listing[1].size, 2);
    assert!(listing[0].thumb);
}

#[test]
fn catalog_path_is_fixed() {
    assert_eq!(index_path(), "public/assets/index.json");
}

#[test]
fn sanitization_replaces_disallowed_characters() {
    assert_eq!(sanitize_filename("wei rd?.png"), "wei_rd_.png");
    assert_eq!(sanitize_filename("ok-file_1.JPG"), "ok-file_1.JPG");
    assert_eq!(sanitize_filename("たぬき.png"), "___.png");
}

#[test]
fn separators_are_detected() {
    assert!(has_path_separator("a/b.png"));
    assert!(has_path_separator("a\\b.png"));
    assert!(!has_path_separator("a_b.png"));
}

#[test]
fn fresh_name_appends_incrementing_suffix_before_extension() {
    let existing = vec![
        String::from("photo.png"),
        String::from("photo-1.png"),
        String::from("photo-2.png"),
    ];
    assert_eq!(fresh_name("photo.png", &existing), "photo-3.png");
    assert_eq!(fresh_name("fresh.png", &existing), "fresh.png");
}

#[test]
fn fresh_name_without_extension_suffixes_at_the_end() {
    let existing = vec![String::from("notes")];
    assert_eq!(fresh_name("notes", &existing), "notes-1");
}

#[test]
fn fresh_name_sanitizes_first() {
    let existing = vec![String::from("my_photo.png")];
    assert_eq!(fresh_name("my photo.png", &existing), "my_photo-1.png");
}
