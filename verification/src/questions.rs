//! The fixed question bank of the static quiz, and answer checking.

use vstd::prelude::*;
use crate::session::Verdict;

verus! {

/// One fixed question: an image and the answer naming what it shows.
pub struct QuizQuestion {
    pub id: usize,
    pub image_url: String,
    pub answer: String,
}

#[verifier::ext_equal]
pub struct QuestionView {
    pub id: usize,
    pub image_url: Seq<char>,
    pub answer: Seq<char>,
}

impl View for QuizQuestion {
    type V = QuestionView;

    open spec fn view(&self) -> QuestionView {
        QuestionView { id: self.id, image_url: self.image_url@, answer: self.answer@ }
    }
}

/// The fixed question bank: four images per species.
pub open spec fn static_questions() -> Seq<QuestionView> {
    seq![
        QuestionView { id: 1, image_url: "/images/tanuki1.png"@, answer: "たぬき"@ },
        QuestionView { id: 2, image_url: "/images/tanuki2.png"@, answer: "たぬき"@ },
        QuestionView { id: 3, image_url: "/images/tanuki3.png"@, answer: "たぬき"@ },
        QuestionView { id: 4, image_url: "/images/anaguma1.png"@, answer: "アナグマ"@ },
        QuestionView { id: 5, image_url: "/images/anaguma2.png"@, answer: "アナグマ"@ },
        QuestionView { id: 6, image_url: "/images/anaguma3.png"@, answer: "アナグマ"@ },
        QuestionView { id: 7, image_url: "/images/hakubishin1.png"@, answer: "ハクビシン"@ },
        QuestionView { id: 8, image_url: "/images/hakubishin2.png"@, answer: "ハクビシン"@ },
        QuestionView { id: 9, image_url: "/images/hakubishin3.png"@, answer: "ハクビシン"@ },
        QuestionView { id: 10, image_url: "/images/tanuki4.png"@, answer: "たぬき"@ },
        QuestionView { id: 11, image_url: "/images/anaguma4.png"@, answer: "アナグマ"@ },
        QuestionView { id: 12, image_url: "/images/hakubishin4.png"@, answer: "ハクビシン"@ },
    ]
}

fn make_question(id: usize, image_url: &str, answer: &str) -> (q: QuizQuestion)
    ensures
        q@ == (QuestionView { id, image_url: image_url@, answer: answer@ }),
{
    let q = QuizQuestion {
        id,
        image_url: String::from_str(image_url),
        answer: String::from_str(answer),
    };
    proof {
        assert(q@ =~= QuestionView { id, image_url: image_url@, answer: answer@ });
    }
    q
}

/// The whole fixed question bank, in order.
pub fn get_all_questions() -> (r: Vec<QuizQuestion>)
    ensures
        r@.map_values(|q: QuizQuestion| q@) == static_questions(),
{
    let mut out: Vec<QuizQuestion> = Vec::new();
    out.push(make_question(1, "/images/tanuki1.png", "たぬき"));
    out.push(make_question(2, "/images/tanuki2.png", "たぬき"));
    out.push(make_question(3, "/images/tanuki3.png", "たぬき"));
    out.push(make_question(4, "/images/anaguma1.png", "アナグマ"));
    out.push(make_question(5, "/images/anaguma2.png", "アナグマ"));
    out.push(make_question(6, "/images/anaguma3.png", "アナグマ"));
    out.push(make_question(7, "/images/hakubishin1.png", "ハクビシン"));
    out.push(make_question(8, "/images/hakubishin2.png", "ハクビシン"));
    out.push(make_question(9, "/images/hakubishin3.png", "ハクビシン"));
    out.push(make_question(10, "/images/tanuki4.png", "たぬき"));
    out.push(make_question(11, "/images/anaguma4.png", "アナグマ"));
    out.push(make_question(12, "/images/hakubishin4.png", "ハクビシン"));
    proof {
        assert(out@.map_values(|q: QuizQuestion| q@) =~= static_questions());
    }
    out
}

/// One question drawn uniformly from the bank.
pub fn pick_question() -> (q: QuizQuestion)
    ensures
        exists|i: int| 0 <= i < static_questions().len() && q@ == static_questions()[i],
{
    let mut qs = get_all_questions();
    let i = crate::compose::rand_below(12) as usize;
    proof {
        assert(static_questions().len() == 12);
        assert(qs@.map_values(|q: QuizQuestion| q@).len() == 12);
        assert(qs@.len() == 12);
    }
    let q = qs.remove(i);
    proof {
        assert(q@ == static_questions()[i as int]);
    }
    q
}

/// The first question with this id, searched from position `i` on.
pub open spec fn find_question_from(s: Seq<QuestionView>, qid: usize, i: int) -> Option<
    QuestionView,
>
    decreases s.len() - i,
{
    if i < 0 || i >= s.len() {
        None
    } else if s[i].id == qid {
        Some(s[i])
    } else {
        find_question_from(s, qid, i + 1)
    }
}

/// Check a submission against the fixed question bank: nothing for an
/// unknown question id, else whether the answer names what the image shows.
pub fn check_answer(id: usize, answer: &String) -> (r: Option<Verdict>)
    ensures
        r is Some <==> find_question_from(static_questions(), id, 0) is Some,
        r matches Some(v) ==> ({
            let q = find_question_from(static_questions(), id, 0).unwrap();
            &&& v.correct == (answer@ == q.answer)
            &&& v.correct_answer@ == q.answer
        }),
{
    let qs = get_all_questions();
    let ghost s = static_questions();
    let n = qs.len();
    let mut i: usize = 0;
    while i < n
        invariant
            n == qs@.len(),
            qs@.map_values(|q: QuizQuestion| q@) == s,
            s == static_questions(),
            i <= n,
            find_question_from(s, id, 0) == find_question_from(s, id, i as int),
        decreases n - i,
    {
        proof {
            assert(qs@[i as int]@ == s[i as int]);
        }
        if qs[i].id == id {
            let correct = *answer == qs[i].answer;
            return Some(Verdict { correct, correct_answer: qs[i].answer.clone() });
        }
        i = i + 1;
    }
    None
}

} // verus!
