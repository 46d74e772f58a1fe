//! The quiz composer.
//!
//! A quiz offers one image per category. For each category the composer
//! prefers a uniformly random pick among the ingested assets whose filename
//! starts with the category key (serving the thumbnail when one exists), and
//! falls back to the procedurally generated placeholder image for the
//! category. The choices are shuffled so order betrays nothing, the correct
//! category is drawn uniformly among them, the localized prompt names its
//! label, and the session is registered in the store under a fresh token.

use vstd::prelude::*;
use rand::Rng;
use crate::index::{AssetIndex, AssetRecord, RecordView};
use crate::session::{
    exactly_one_category,
    has_id,
    session_wf,
    ChoiceView,
    QuizChoice,
    QuizSession,
    SessionStore,
};

verus! {

/// The fixed category keys a quiz draws from.
pub open spec fn category_keys() -> Seq<Seq<char>> {
    seq!["tanuki"@, "anaguma"@, "hakubishin"@]
}

/// The ASCII-lowercased code of a character (other characters unchanged).
pub open spec fn lower_code(c: char) -> u32 {
    let n = c as u32;
    if 65 <= n && n <= 90 {
        (n + 32) as u32
    } else {
        n
    }
}

/// The string starts with the prefix, ASCII case ignored.
pub open spec fn starts_with_ci(s: Seq<char>, prefix: Seq<char>) -> bool {
    prefix.len() <= s.len() && forall|i: int|
        0 <= i < prefix.len() ==> lower_code(s[i]) == lower_code(#[trigger] prefix[i])
}

/// The string ends with the suffix, ASCII case ignored.
pub open spec fn ends_with_ci(s: Seq<char>, suffix: Seq<char>) -> bool {
    suffix.len() <= s.len() && forall|i: int|
        0 <= i < suffix.len() ==> lower_code(s[s.len() - suffix.len() + i]) == lower_code(
            #[trigger] suffix[i],
        )
}

/// A record that can stand for a category: its filename starts with the
/// category key and carries an image extension.
pub open spec fn is_candidate(r: RecordView, cat: Seq<char>) -> bool {
    &&& starts_with_ci(r.filename, cat)
    &&& (ends_with_ci(r.filename, ".jpg"@) || ends_with_ci(r.filename, ".jpeg"@)
        || ends_with_ci(r.filename, ".png"@))
}

/// The records that can stand for a category, in catalog order.
pub open spec fn candidates_of(s: Seq<RecordView>, cat: Seq<char>) -> Seq<RecordView> {
    s.filter(|r: RecordView| is_candidate(r, cat))
}

/// Where a chosen record's image is served: its thumbnail when one was
/// stored, else the original.
pub open spec fn url_of_record(r: RecordView) -> Seq<char> {
    if r.thumb {
        "/assets/thumbs/"@ + r.filename
    } else {
        "/assets/"@ + r.filename
    }
}

/// Where the placeholder image of a category is served.
pub open spec fn placeholder_url(cat: Seq<char>) -> Seq<char> {
    "/images/"@ + cat + ".png"@
}

/// The image of a choice is sound for its category: a placeholder exactly
/// when no ingested asset matches the category, else the served path of some
/// matching asset.
pub open spec fn choice_url_ok(s: Seq<RecordView>, cat: Seq<char>, url: Seq<char>) -> bool {
    if candidates_of(s, cat).len() == 0 {
        url == placeholder_url(cat)
    } else {
        exists|i: int|
            0 <= i < candidates_of(s, cat).len() && url == url_of_record(
                #[trigger] candidates_of(s, cat)[i],
            )
    }
}

/// The human-readable label of a category.
pub open spec fn label_of(cat: Seq<char>) -> Seq<char> {
    if cat == "tanuki"@ {
        "たぬき"@
    } else if cat == "anaguma"@ {
        "アナグマ"@
    } else if cat == "hakubishin"@ {
        "ハクビシン"@
    } else {
        "特徴のある画像"@
    }
}

/// The localized prompt, embedding the label of the concealed category.
pub open spec fn prompt_spec(cat: Seq<char>) -> Seq<char> {
    "次の画像のうち、"@ + label_of(cat) + " はどれですか？"@
}

/// The choices of a composed quiz are sound against the asset catalog: one
/// choice per category, each showing an image that stands for its category,
/// under distinct ordinals.
pub open spec fn compose_choices_ok(s: Seq<RecordView>, cs: Seq<ChoiceView>) -> bool {
    &&& cs.len() == 3
    &&& forall|j: int|
        0 <= j < 3 ==> category_keys().contains((#[trigger] cs[j]).category) && choice_url_ok(
            s,
            cs[j].category,
            cs[j].image_url,
        )
    &&& forall|j: int| 0 <= j < 3 ==> 1 <= (#[trigger] cs[j]).id <= 3
    &&& forall|j: int, k: int| 0 <= j < k < 3 ==> (#[trigger] cs[j]).id != (#[trigger] cs[k]).id
    &&& exactly_one_category(cs, "tanuki"@)
    &&& exactly_one_category(cs, "anaguma"@)
    &&& exactly_one_category(cs, "hakubishin"@)
}

proof fn lemma_one_of_three(cs: Seq<ChoiceView>, cat: Seq<char>)
    requires
        cs.len() == 3,
        cs[0].category != cs[1].category,
        cs[0].category != cs[2].category,
        cs[1].category != cs[2].category,
        cs[0].category == cat || cs[1].category == cat || cs[2].category == cat,
    ensures
        exactly_one_category(cs, cat),
{
    if cs[0].category == cat {
        assert(0 <= 0 < cs.len() && cs[0].category == cat && (forall|k: int|
            0 <= k < cs.len() && k != 0 ==> (#[trigger] cs[k]).category != cat));
    } else if cs[1].category == cat {
        assert(0 <= 1 < cs.len() && cs[1].category == cat && (forall|k: int|
            0 <= k < cs.len() && k != 1 ==> (#[trigger] cs[k]).category != cat));
    } else {
        assert(0 <= 2 < cs.len() && cs[2].category == cat && (forall|k: int|
            0 <= k < cs.len() && k != 2 ==> (#[trigger] cs[k]).category != cat));
    }
}

/// Relies on `rand::Rng::gen_range` over `0..n`: every value it returns lies
/// below `n` (the empty range, which would panic, is ruled out); nothing
/// more holds of a random draw.
#[verifier::external_body]
pub(crate) fn rand_below(n: u64) -> (r: u64)
    requires
        n > 0,
    ensures
        r < n,
{
    rand::thread_rng().gen_range(0..n)
}

fn lower_code_of(c: char) -> (r: u32)
    ensures
        r == lower_code(c),
{
    let n = c as u32;
    if 65 <= n && n <= 90 {
        n + 32
    } else {
        n
    }
}

/// Does the string start with the prefix, ASCII case ignored?
fn str_starts_with_ci(s: &String, prefix: &str) -> (r: bool)
    ensures
        r == starts_with_ci(s@, prefix@),
{
    let n = s.as_str().unicode_len();
    let m = prefix.unicode_len();
    if m > n {
        return false;
    }
    let mut i: usize = 0;
    while i < m
        invariant
            n == s@.len(),
            m == prefix@.len(),
            m <= n,
            i <= m,
            forall|j: int| 0 <= j < i ==> lower_code(s@[j]) == lower_code(#[trigger] prefix@[j]),
        decreases m - i,
    {
        let a = lower_code_of(s.as_str().get_char(i));
        let b = lower_code_of(prefix.get_char(i));
        if a != b {
            return false;
        }
        i = i + 1;
    }
    true
}

/// Does the string end with the suffix, ASCII case ignored?
fn str_ends_with_ci(s: &String, suffix: &str) -> (r: bool)
    ensures
        r == ends_with_ci(s@, suffix@),
{
    let n = s.as_str().unicode_len();
    let m = suffix.unicode_len();
    if m > n {
        return false;
    }
    let mut i: usize = 0;
    while i < m
        invariant
            n == s@.len(),
            m == suffix@.len(),
            m <= n,
            i <= m,
            forall|j: int|
                0 <= j < i ==> lower_code(s@[n - m + j]) == lower_code(#[trigger] suffix@[j]),
        decreases m - i,
    {
        let a = lower_code_of(s.as_str().get_char(n - m + i));
        let b = lower_code_of(suffix.get_char(i));
        if a != b {
            return false;
        }
        i = i + 1;
    }
    true
}

/// The ingested assets that can stand for a category.
fn category_candidates(index: &AssetIndex, cat: &str) -> (r: Vec<AssetRecord>)
    ensures
        r@.map_values(|x: AssetRecord| x@) == candidates_of(index@, cat@),
{
    let ghost s = index@;
    let mut out: Vec<AssetRecord> = Vec::new();
    let n = index.records.len();
    let mut i: usize = 0;
    while i < n
        invariant
            n == index.records.len(),
            index@ == s,
            i <= n,
            out@.map_values(|x: AssetRecord| x@) == s.take(i as int).filter(
                |r: RecordView| is_candidate(r, cat@),
            ),
        decreases n - i,
    {
        proof {
            reveal(Seq::filter);
            assert(s.take(i + 1).drop_last() =~= s.take(i as int));
            assert(s.take(i + 1).last() == s[i as int]);
            assert(s[i as int] == index.records@[i as int]@);
        }
        let e = &index.records[i];
        let keep = str_starts_with_ci(&e.filename, cat) && (str_ends_with_ci(&e.filename, ".jpg")
            || str_ends_with_ci(&e.filename, ".jpeg") || str_ends_with_ci(&e.filename, ".png"));
        proof {
            assert(keep == is_candidate(s[i as int], cat@));
        }
        if keep {
            out.push(index.records[i].duplicate());
        }
        proof {
            assert(out@.map_values(|x: AssetRecord| x@) =~= s.take(i + 1).filter(
                |r: RecordView| is_candidate(r, cat@),
            ));
        }
        i = i + 1;
    }
    proof {
        assert(s.take(n as int) =~= s);
    }
    out
}

/// The choice for one category: a random matching asset (thumbnail
/// preferred), or the category's placeholder image.
fn make_choice(index: &AssetIndex, cat: &str, ordinal: usize) -> (c: QuizChoice)
    ensures
        c@.id == ordinal,
        c@.category == cat@,
        choice_url_ok(index@, cat@, c@.image_url),
{
    let cands = category_candidates(index, cat);
    if cands.len() == 0 {
        let url = String::from_str("/images/").concat(cat).concat(".png");
        QuizChoice { id: ordinal, image_url: url, category: String::from_str(cat) }
    } else {
        let pick = rand_below(cands.len() as u64) as usize;
        let rec = &cands[pick];
        proof {
            assert(rec@ == candidates_of(index@, cat@)[pick as int]);
        }
        let url = if rec.thumb {
            String::from_str("/assets/thumbs/").concat(rec.filename.as_str())
        } else {
            String::from_str("/assets/").concat(rec.filename.as_str())
        };
        QuizChoice { id: ordinal, image_url: url, category: String::from_str(cat) }
    }
}

/// What a quiz's creator hands back to the client: the session token, the
/// prompt and the choices — the correct category stays concealed in the
/// store.
pub struct SessionResponse {
    pub id: u128,
    pub question: String,
    pub choices: Vec<QuizChoice>,
}

/// Compose a quiz and register it: one choice per category (a random
/// ingested asset, or the placeholder), shuffled, with a uniformly chosen
/// concealed answer and the localized prompt naming its label. Nothing is
/// returned when the store's token generator failed to find a free token.
pub fn compose(index: &AssetIndex, store: &mut SessionStore, now: u64) -> (r: Option<
    SessionResponse,
>)
    requires
        old(store).wf(),
    ensures
        final(store).wf(),
        r is None ==> final(store)@ == old(store)@,
        r matches Some(resp) ==> final(store)@.len() == old(store)@.len() + 1 && ({
            let e = final(store)@.last();
            &&& final(store)@ == old(store)@.push(e)
            &&& e.id == resp.id
            &&& !has_id(old(store)@, e.id)
            &&& e.created_at == now
            &&& compose_choices_ok(index@, e.session.choices)
            &&& (exists|m: int|
                0 <= m < 3 && e.session.answer_category == (
                #[trigger] e.session.choices[m]).category)
            &&& session_wf(e.session)
            &&& e.session.question == prompt_spec(e.session.answer_category)
            &&& resp.question@ == e.session.question
            &&& resp.choices@.map_values(|c: QuizChoice| c@) == e.session.choices
        }),
{
    let c1 = make_choice(index, "tanuki", 1);
    let c2 = make_choice(index, "anaguma", 2);
    let c3 = make_choice(index, "hakubishin", 3);
    proof {
        reveal_strlit("tanuki");
        reveal_strlit("anaguma");
        reveal_strlit("hakubishin");
        assert(category_keys()[0] == "tanuki"@);
        assert(category_keys().contains("tanuki"@));
        assert(category_keys()[1] == "anaguma"@);
        assert(category_keys().contains("anaguma"@));
        assert(category_keys()[2] == "hakubishin"@);
        assert(category_keys().contains("hakubishin"@));
        assert("tanuki"@.len() == 6);
        assert("anaguma"@.len() == 7);
        assert("hakubishin"@.len() == 10);
    }
    let p = rand_below(6);
    let (d1, d2, d3) = if p == 0 {
        (c1, c2, c3)
    } else if p == 1 {
        (c1, c3, c2)
    } else if p == 2 {
        (c2, c1, c3)
    } else if p == 3 {
        (c2, c3, c1)
    } else if p == 4 {
        (c3, c1, c2)
    } else {
        (c3, c2, c1)
    };
    let mut choices: Vec<QuizChoice> = Vec::new();
    choices.push(d1);
    choices.push(d2);
    choices.push(d3);
    let ghost cs = choices@.map_values(|c: QuizChoice| c@);
    proof {
        assert(cs.len() == 3);
        assert(cs[0] == choices@[0]@ && cs[1] == choices@[1]@ && cs[2] == choices@[2]@);
        assert(cs[0].category != cs[1].category && cs[0].category != cs[2].category
            && cs[1].category != cs[2].category);
        lemma_one_of_three(cs, "tanuki"@);
        lemma_one_of_three(cs, "anaguma"@);
        lemma_one_of_three(cs, "hakubishin"@);
        assert(compose_choices_ok(index@, cs));
    }
    let m = rand_below(3) as usize;
    let answer_cat = choices[m].category.clone();
    let tanuki_key = String::from_str("tanuki");
    let anaguma_key = String::from_str("anaguma");
    let hakubishin_key = String::from_str("hakubishin");
    let label: &str = if answer_cat == tanuki_key {
        "たぬき"
    } else if answer_cat == anaguma_key {
        "アナグマ"
    } else if answer_cat == hakubishin_key {
        "ハクビシン"
    } else {
        "特徴のある画像"
    };
    proof {
        assert(label@ == label_of(answer_cat@));
    }
    let question = String::from_str("次の画像のうち、").concat(label).concat(" はどれですか？");
    let resp_question = question.clone();
    let mut resp_choices: Vec<QuizChoice> = Vec::new();
    let n = choices.len();
    let mut i: usize = 0;
    while i < n
        invariant
            n == choices.len(),
            i <= n,
            resp_choices@.len() == i,
            forall|j: int| 0 <= j < i ==> (#[trigger] resp_choices@[j])@ == choices@[j]@,
        decreases n - i,
    {
        resp_choices.push(choices[i].duplicate());
        i = i + 1;
    }
    let session = QuizSession { question, choices, answer_category: answer_cat };
    proof {
        assert(session@.choices =~= cs);
        assert(session_wf(session@)) by {
            assert(session@.answer_category == cs[m as int].category);
            let key = cs[m as int].category;
            assert(key == "tanuki"@ || key == "anaguma"@ || key == "hakubishin"@) by {
                assert(category_keys().contains(key));
                let kk = choose|kk: int|
                    0 <= kk < category_keys().len() && category_keys()[kk] == key;
                assert(kk == 0 || kk == 1 || kk == 2);
            }
            assert(exactly_one_category(cs, key));
        }
        assert(resp_choices@.map_values(|c: QuizChoice| c@) =~= cs);
    }
    match store.create(session, now) {
        Some(id) => {
            proof {
                let e = store@.last();
                assert(e.session == session@);
                assert(e.session.choices[m as int].category == e.session.answer_category);
                assert(exists|mm: int|
                    0 <= mm < 3 && e.session.answer_category == (
                    #[trigger] e.session.choices[mm]).category);
            }
            Some(SessionResponse { id, question: resp_question, choices: resp_choices })
        },
        None => None,
    }
}

} // verus!
