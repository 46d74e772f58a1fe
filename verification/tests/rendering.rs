//! The placeholder renderer and the static question bank.

use tanuki_quiz::questions::{check_answer, get_all_questions, pick_question};
use tanuki_quiz::render::{generate_image, generate_image_bytes, in_circle};
use tanuki_quiz::token_matches;

#[test]
fn circle_membership_is_the_euclidean_test() {
    assert!(in_circle(0, 0, 5, 3, 4));
    assert!(!in_circle(0, 0, 5, 4, 4));
    assert!(in_circle(10, 10, 0, 10, 10));
    assert!(in_circle(-100, -100, 5, -103, -104));
    // extreme coordinates must not overflow
    assert!(!in_circle(i32::MIN, i32::MIN, 2, i32::MAX, i32::MAX));
}

#[test]
fn placeholder_canvas_paints_background_face_and_eyes() {
    let canvas = generate_image("tanuki1");
    assert_eq!(canvas.width, 800);
    assert_eq!(canvas.height, 600);
    assert_eq!(canvas.pixels.len(), 800 * 600);
    // corner: gold background
    let corner = canvas.pixels[0];
    assert_eq!((corner.r, corner.g, corner.b), (0xFF, 0xD7, 0x00));
    // center: face color
    let center = canvas.pixels[300 * 800 + 400];
    assert_eq!((center.r, center.g, center.b), (0xFF, 0xF5, 0xE6));
    // left eye center: black
    let eye = canvas.pixels[267 * 800 + 334];
    assert_eq!((eye.r, eye.g, eye.b), (0, 0, 0));
}

#[test]
fn masked_species_gets_a_stripe() {
    let canvas = generate_image("hakubishin2");
    let striped = canvas.pixels[300 * 800 + 400];
    assert_eq!((striped.r, striped.g, striped.b), (0x80, 0x80, 0x80));
    let unmasked = generate_image("anaguma9");
    let center = unmasked.pixels[300 * 800 + 400];
    assert_eq!((center.r, center.g, center.b), (0xF5, 0xF5, 0xF5));
}

#[test]
fn placeholder_png_encodes_the_drawn_canvas() {
    let bytes = generate_image_bytes("tanuki").unwrap();
    let img = image::load_from_memory(&bytes).unwrap();
    assert_eq!(image::GenericImageView::dimensions(&img), (800, 600));
    let top_left = image::GenericImageView::get_pixel(&img, 0, 0);
    assert_eq!((top_left[0], top_left[1], top_left[2]), (0xFF, 0xD7, 0x00));
}

#[test]
fn unknown_keys_get_the_neutral_palette() {
    let canvas = generate_image("mystery");
    let corner = canvas.pixels[0];
    assert_eq!((corner.r, corner.g, corner.b), (0xDD, 0xDD, 0xDD));
}

#[test]
fn question_bank_holds_twelve_questions() {
    let qs = get_all_questions();
    assert_eq!(qs.len(), 12);
    assert_eq!(qs[0].id, 1);
    assert_eq!(qs[0].image_url, "/images/tanuki1.png");
    assert_eq!(qs[0].answer, "たぬき");
    assert_eq!(qs[11].id, 12);
    assert_eq!(qs[11].answer, "ハクビシン");
}

#[test]
fn picked_question_comes_from_the_bank() {
    let q = pick_question();
    assert!(1 <= q.id && q.id <= 12);
    assert!(q.image_url.starts_with("/images/"));
}

#[test]
fn answers_are_checked_against_the_bank() {
    let right = check_answer(4, &String::from("アナグマ")).unwrap();
    assert!(right.correct);
    assert_eq!(right.correct_answer, "アナグマ");
    let wrong = check_answer(4, &String::from("たぬき")).unwrap();
    assert!(!wrong.correct);
    assert_eq!(wrong.correct_answer, "アナグマ");
    assert!(check_answer(99, &String::from("たぬき")).is_none());
}

#[test]
fn admin_token_must_match_exactly() {
    assert!(token_matches(
        &String::from("admin-token"),
        &String::from("admin-token")
    ));
    assert!(!token_matches(
        &String::from("admin-token "),
        &String::from("admin-token")
    ));
    assert!(!token_matches(&String::new(), &String::from("admin-token")));
}
