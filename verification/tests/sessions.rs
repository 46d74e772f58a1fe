//! The quiz session store and the composer.

use tanuki_quiz::compose::compose;
use tanuki_quiz::index::{AssetIndex, AssetRecord};
use tanuki_quiz::session::{
    QuizChoice, QuizSession, SessionStore, SESSION_TTL_SECONDS, SWEEP_INTERVAL_SECONDS,
};

fn quiz(answer: &str) -> QuizSession {
    QuizSession {
        question: String::from("which image?"),
        choices: vec![
            QuizChoice {
                id: 1,
                image_url: String::from("/assets/a.png"),
                category: String::from("tanuki"),
            },
            QuizChoice {
                id: 2,
                image_url: String::from("/assets/b.png"),
                category: String::from("anaguma"),
            },
        ],
        answer_category: String::from(answer),
    }
}

#[test]
fn correct_consumption_then_second_attempt_reads_unknown() {
    let mut store = SessionStore::new();
    let id = store.create(quiz("tanuki"), 100).unwrap();
    let verdict = store.consume(id, &String::from("tanuki"));
    assert!(verdict.correct);
    assert_eq!(verdict.correct_answer, "tanuki");
    let again = store.consume(id, &String::from("tanuki"));
    assert!(!again.correct);
    assert_eq!(again.correct_answer, "unknown");
}

#[test]
fn wrong_category_is_incorrect_but_reveals_the_answer() {
    let mut store = SessionStore::new();
    let id = store.create(quiz("anaguma"), 100).unwrap();
    let verdict = store.consume(id, &String::from("tanuki"));
    assert!(!verdict.correct);
    assert_eq!(verdict.correct_answer, "anaguma");
}

#[test]
fn unknown_session_id_is_never_an_error() {
    let mut store = SessionStore::new();
    let verdict = store.consume(12345, &String::from("tanuki"));
    assert!(!verdict.correct);
    assert_eq!(verdict.correct_answer, "unknown");
}

#[test]
fn distinct_sessions_get_distinct_tokens() {
    let mut store = SessionStore::new();
    let a = store.create(quiz("tanuki"), 1).unwrap();
    let b = store.create(quiz("anaguma"), 2).unwrap();
    assert_ne!(a, b);
    assert!(store.contains_id(a));
    assert!(store.contains_id(b));
}

#[test]
fn sweep_removes_entries_older_than_the_ttl() {
    let mut store = SessionStore::new();
    let old_id = store.create(quiz("tanuki"), 0).unwrap();
    let young_id = store.create(quiz("anaguma"), 280).unwrap();
    store.sweep(SESSION_TTL_SECONDS + 1, SESSION_TTL_SECONDS);
    assert!(!store.contains_id(old_id));
    assert!(store.contains_id(young_id));
    // the swept session now reads as unknown, consumed or not
    let verdict = store.consume(old_id, &String::from("tanuki"));
    assert!(!verdict.correct);
    assert_eq!(verdict.correct_answer, "unknown");
}

#[test]
fn sweep_at_the_boundary_keeps_an_entry_exactly_ttl_old() {
    let mut store = SessionStore::new();
    let id = store.create(quiz("tanuki"), 0).unwrap();
    store.sweep(SESSION_TTL_SECONDS, SESSION_TTL_SECONDS);
    assert!(store.contains_id(id));
}

#[test]
fn sweep_interval_is_a_minute_and_ttl_five() {
    assert_eq!(SWEEP_INTERVAL_SECONDS, 60);
    assert_eq!(SESSION_TTL_SECONDS, 300);
    assert_eq!(SESSION_TTL_SECONDS, 5 * SWEEP_INTERVAL_SECONDS);
}

#[test]
fn composed_quiz_has_one_choice_per_category() {
    let index = AssetIndex::new();
    let mut store = SessionStore::new();
    let resp = compose(&index, &mut store, 0).unwrap();
    assert_eq!(resp.choices.len(), 3);
    let mut cats: Vec<String> = resp.choices.iter().map(|c| c.category.clone()).collect();
    cats.sort();
    assert_eq!(cats, vec!["anaguma", "hakubishin", "tanuki"]);
    let mut ids: Vec<usize> = resp.choices.iter().map(|c| c.id).collect();
    ids.sort();
    assert_eq!(ids, vec![1, 2, 3]);
}

#[test]
fn composed_quiz_falls_back_to_placeholders_without_assets() {
    let index = AssetIndex::new();
    let mut store = SessionStore::new();
    let resp = compose(&index, &mut store, 0).unwrap();
    for c in &resp.choices {
        assert_eq!(c.image_url, format!("/images/{}.png", c.category));
    }
}

#[test]
fn composed_quiz_prefers_ingested_assets_and_their_thumbnails() {
    let mut index = AssetIndex::new();
    index.upsert(AssetRecord {
        filename: String::from("tanuki1.png"),
        size: 10,
        thumb: true,
        phash: None,
        uploaded_at: String::from("2024-01-01T00:00:00+00:00"),
    });
    index.upsert(AssetRecord {
        filename: String::from("anaguma1.jpg"),
        size: 10,
        thumb: false,
        phash: None,
        uploaded_at: String::from("2024-01-01T00:00:00+00:00"),
    });
    let mut store = SessionStore::new();
    let resp = compose(&index, &mut store, 0).unwrap();
    for c in &resp.choices {
        match c.category.as_str() {
            "tanuki" => assert_eq!(c.image_url, "/assets/thumbs/tanuki1.png"),
            "anaguma" => assert_eq!(c.image_url, "/assets/anaguma1.jpg"),
            "hakubishin" => assert_eq!(c.image_url, "/images/hakubishin.png"),
            other => panic!("unexpected category {}", other),
        }
    }
}

#[test]
fn composed_session_is_consumable_and_conceals_a_listed_category() {
    let index = AssetIndex::new();
    let mut store = SessionStore::new();
    let resp = compose(&index, &mut store, 0).unwrap();
    assert!(store.contains_id(resp.id));
    // the verdict names the concealed category; correctness matches whether
    // our guess hit it
    let guess = String::from("tanuki");
    let verdict = store.consume(resp.id, &guess);
    assert!(["tanuki", "anaguma", "hakubishin"]
        .contains(&verdict.correct_answer.as_str()));
    assert_eq!(verdict.correct, verdict.correct_answer == guess);
    assert!(resp.question.contains("次の画像のうち、"));
}
