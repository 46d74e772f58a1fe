//! The quiz session store.
//!
//! A created quiz is kept under an opaque 128-bit token together with its
//! creation time. A submission consumes the session: the entry is removed
//! and the verdict compares the selected category with the concealed answer.
//! A missing session — never created, already consumed, or expired — is
//! never an error: the verdict is incorrect with answer "unknown", so a
//! caller cannot learn whether an id ever existed. A periodic sweep removes
//! every entry older than the TTL. The caller serializes access: one lock
//! guards the store, and no I/O happens under it.

use vstd::prelude::*;
use vstd::seq_lib::*;

verus! {

/// A swept entry is older than this many seconds.
pub const SESSION_TTL_SECONDS: u64 = 300;

/// How many seconds the sweeper sleeps between scans.
pub const SWEEP_INTERVAL_SECONDS: u64 = 60;

/// One choice offered by a quiz: its ordinal, the image shown, and the
/// category it depicts.
pub struct QuizChoice {
    pub id: usize,
    pub image_url: String,
    pub category: String,
}

#[verifier::ext_equal]
pub struct ChoiceView {
    pub id: usize,
    pub image_url: Seq<char>,
    pub category: Seq<char>,
}

impl View for QuizChoice {
    type V = ChoiceView;

    open spec fn view(&self) -> ChoiceView {
        ChoiceView { id: self.id, image_url: self.image_url@, category: self.category@ }
    }
}

impl QuizChoice {
    /// An equal copy of the choice.
    pub fn duplicate(&self) -> (c: QuizChoice)
        ensures
            c@ == self@,
    {
        let c = QuizChoice {
            id: self.id,
            image_url: self.image_url.clone(),
            category: self.category.clone(),
        };
        proof {
            assert(c@ =~= self@);
        }
        c
    }
}

/// One generated quiz: the prompt, the choices, and the concealed correct
/// category — never shown in the listing form.
pub struct QuizSession {
    pub question: String,
    pub choices: Vec<QuizChoice>,
    pub answer_category: String,
}

#[verifier::ext_equal]
pub struct SessionView {
    pub question: Seq<char>,
    pub choices: Seq<ChoiceView>,
    pub answer_category: Seq<char>,
}

impl View for QuizSession {
    type V = SessionView;

    open spec fn view(&self) -> SessionView {
        SessionView {
            question: self.question@,
            choices: self.choices@.map_values(|c: QuizChoice| c@),
            answer_category: self.answer_category@,
        }
    }
}

/// Exactly one of the choices carries this category.
pub open spec fn exactly_one_category(cs: Seq<ChoiceView>, cat: Seq<char>) -> bool {
    exists|j: int|
        0 <= j < cs.len() && (#[trigger] cs[j]).category == cat && (forall|k: int|
            0 <= k < cs.len() && k != j ==> (#[trigger] cs[k]).category != cat)
}

/// A well-formed session conceals an answer that names the category of
/// exactly one of its choices.
pub open spec fn session_wf(v: SessionView) -> bool {
    exactly_one_category(v.choices, v.answer_category)
}

impl QuizSession {
    /// An equal copy of the session.
    pub fn duplicate(&self) -> (c: QuizSession)
        ensures
            c@ == self@,
    {
        let mut choices: Vec<QuizChoice> = Vec::new();
        let n = self.choices.len();
        let mut i: usize = 0;
        while i < n
            invariant
                n == self.choices.len(),
                i <= n,
                choices@.len() == i,
                forall|j: int| 0 <= j < i ==> (#[trigger] choices@[j])@ == self.choices@[j]@,
            decreases n - i,
        {
            choices.push(self.choices[i].duplicate());
            i = i + 1;
        }
        let c = QuizSession {
            question: self.question.clone(),
            choices,
            answer_category: self.answer_category.clone(),
        };
        proof {
            assert(c@.choices =~= self@.choices);
            assert(c@ =~= self@);
        }
        c
    }
}

/// The verdict on a submission: whether the selected category was the
/// concealed answer, and what the answer was ("unknown" for a session that
/// is absent).
pub struct Verdict {
    pub correct: bool,
    pub correct_answer: String,
}

pub struct StoredEntry {
    pub id: u128,
    pub session: QuizSession,
    pub created_at: u64,
}

/// One stored session: its token, the quiz, and when it was created.
#[verifier::ext_equal]
pub struct EntryView {
    pub id: u128,
    pub session: SessionView,
    pub created_at: u64,
}

impl View for StoredEntry {
    type V = EntryView;

    open spec fn view(&self) -> EntryView {
        EntryView { id: self.id, session: self.session@, created_at: self.created_at }
    }
}

/// Tokens are pairwise distinct.
pub open spec fn wf_entries(s: Seq<EntryView>) -> bool {
    forall|i: int, j: int| 0 <= i < j < s.len() ==> (#[trigger] s[i]).id != (#[trigger] s[j]).id
}

/// Some entry carries this token.
pub open spec fn has_id(s: Seq<EntryView>, id: u128) -> bool {
    exists|i: int| 0 <= i < s.len() && (#[trigger] s[i]).id == id
}

/// The first entry carrying this token, searched from position `i` on.
pub open spec fn lookup_id_from(s: Seq<EntryView>, id: u128, i: int) -> Option<EntryView>
    decreases s.len() - i,
{
    if i < 0 || i >= s.len() {
        None
    } else if s[i].id == id {
        Some(s[i])
    } else {
        lookup_id_from(s, id, i + 1)
    }
}

/// The entry carrying this token, if any.
pub open spec fn lookup_id(s: Seq<EntryView>, id: u128) -> Option<EntryView> {
    lookup_id_from(s, id, 0)
}

/// The store with every entry carrying this token removed.
pub open spec fn drop_id(s: Seq<EntryView>, id: u128) -> Seq<EntryView> {
    s.filter(|e: EntryView| e.id != id)
}

/// The age of an entry at time `now` (zero for an entry from the future).
pub open spec fn age_of(e: EntryView, now: u64) -> u64 {
    if now >= e.created_at {
        (now - e.created_at) as u64
    } else {
        0u64
    }
}

/// What the store holds after one sweep at time `now`: exactly the entries
/// no older than the TTL.
pub open spec fn sweep_spec(s: Seq<EntryView>, now: u64, ttl: u64) -> Seq<EntryView> {
    s.filter(|e: EntryView| age_of(e, now) <= ttl)
}

/// What the store holds after a submission for `id`: the same entries when
/// the token is absent, else all but the consumed one.
pub open spec fn consume_store(s: Seq<EntryView>, id: u128) -> Seq<EntryView> {
    if has_id(s, id) {
        drop_id(s, id)
    } else {
        s
    }
}

/// The verdict on a submission: correct exactly when the session exists and
/// the selected category is its concealed answer; the answer of an absent
/// session reads "unknown".
pub open spec fn consume_verdict(s: Seq<EntryView>, id: u128, selected: Seq<char>) -> (
    bool,
    Seq<char>,
) {
    match lookup_id(s, id) {
        Some(e) => (selected == e.session.answer_category, e.session.answer_category),
        None => (false, "unknown"@),
    }
}

proof fn lemma_filter_entries(s: Seq<EntryView>, pred: spec_fn(EntryView) -> bool)
    ensures
        forall|x: EntryView| #[trigger] s.filter(pred).contains(x) ==> s.contains(x),
        wf_entries(s) ==> wf_entries(s.filter(pred)),
    decreases s.len(),
{
    reveal(Seq::filter);
    let d = s.filter(pred);
    if s.len() == 0 {
    } else {
        let s1 = s.drop_last();
        let last = s.last();
        lemma_filter_entries(s1, pred);
        let d1 = s1.filter(pred);
        assert forall|x: EntryView| #[trigger] d.contains(x) implies s.contains(x) by {
            let k = choose|k: int| 0 <= k < d.len() && d[k] == x;
            if pred(last) && k == d.len() - 1 {
                assert(s[s.len() - 1] == x);
            } else {
                assert(d1.contains(x));
                let m = choose|m: int| 0 <= m < s1.len() && s1[m] == x;
                assert(s[m] == x);
            }
        }
        if wf_entries(s) {
            assert(wf_entries(s1));
            if pred(last) {
                assert forall|i: int, j: int|
                    0 <= i < j < d.len() implies (#[trigger] d[i]).id != (#[trigger] d[j]).id by {
                    if j == d.len() - 1 {
                        assert(d[j] == last);
                        assert(d1.contains(d1[i]));
                        let m = choose|m: int| 0 <= m < s1.len() && s1[m] == d1[i];
                        assert(s[m].id != s[s.len() - 1].id);
                    } else {
                        assert(d1[i] == d[i] && d1[j] == d[j]);
                    }
                }
            }
        }
    }
}

proof fn lemma_filter_keeps_all(s: Seq<EntryView>, pred: spec_fn(EntryView) -> bool)
    requires
        forall|k: int| 0 <= k < s.len() ==> pred(#[trigger] s[k]),
    ensures
        s.filter(pred) =~= s,
    decreases s.len(),
{
    reveal(Seq::filter);
    if s.len() > 0 {
        lemma_filter_keeps_all(s.drop_last(), pred);
    }
}

proof fn lemma_drop_id_is_remove(s: Seq<EntryView>, idx: int)
    requires
        0 <= idx < s.len(),
        forall|j: int| 0 <= j < s.len() && j != idx ==> (#[trigger] s[j]).id != s[idx].id,
    ensures
        drop_id(s, s[idx].id) =~= s.remove(idx),
    decreases s.len(),
{
    reveal(Seq::filter);
    let id = s[idx].id;
    if idx == s.len() - 1 {
        lemma_filter_keeps_all(s.drop_last(), |e: EntryView| e.id != id);
        assert(s.remove(idx) =~= s.drop_last());
    } else {
        let s1 = s.drop_last();
        lemma_drop_id_is_remove(s1, idx);
        assert(s1[idx] == s[idx]);
        assert(drop_id(s, id) =~= drop_id(s1, id).push(s.last()));
        assert(s.remove(idx) =~= s1.remove(idx).push(s.last()));
    }
}

/// Law: a freshly created session, consumed with its correct category,
/// verdicts correct and leaves the store as it was before creation; any
/// further submission for the same token — whatever the category — verdicts
/// incorrect with answer "unknown".
pub proof fn lemma_session_lifecycle(
    s: Seq<EntryView>,
    id: u128,
    session: SessionView,
    now: u64,
)
    requires
        wf_entries(s),
        !has_id(s, id),
    ensures
        ({
            let s2 = s.push(EntryView { id, session, created_at: now });
            &&& consume_verdict(s2, id, session.answer_category) == (
                true,
                session.answer_category,
            )
            &&& consume_store(s2, id) == s
            &&& forall|any: Seq<char>|
                consume_verdict(consume_store(s2, id), id, any) == (false, "unknown"@)
        }),
{
    let e = EntryView { id, session, created_at: now };
    let s2 = s.push(e);
    assert(s2[s2.len() - 1] == e);
    assert(has_id(s2, id));
    lemma_lookup_id_props(s2, id, 0);
    let x = lookup_id(s2, id).unwrap();
    let kx = choose|k: int| 0 <= k < s2.len() && s2[k] == x && s2[k].id == id;
    assert(x == e) by {
        if kx < s2.len() - 1 {
            assert(s[kx].id == id);
        }
    }
    assert(drop_id(s2, id) == s) by {
        lemma_drop_id_is_remove(s2, s2.len() - 1);
        assert(s2.remove(s2.len() - 1) =~= s);
    }
    assert forall|any: Seq<char>|
        consume_verdict(consume_store(s2, id), id, any) == (false, "unknown"@) by {
        lemma_lookup_id_props(s, id, 0);
    }
}

proof fn lemma_lookup_id_props(s: Seq<EntryView>, id: u128, i: int)
    requires
        0 <= i <= s.len(),
    ensures
        lookup_id_from(s, id, i) is Some <==> exists|k: int|
            i <= k < s.len() && (#[trigger] s[k]).id == id,
        lookup_id_from(s, id, i) matches Some(x) ==> x.id == id && exists|k: int|
            i <= k < s.len() && s[k] == x && (#[trigger] s[k]).id == id,
    decreases s.len() - i,
{
    if i < s.len() {
        lemma_lookup_id_props(s, id, i + 1);
    }
}

/// Law: an entry older than the TTL is absent from the store after one
/// sweep, whether or not it was ever consumed.
pub proof fn lemma_expired_entry_swept(s: Seq<EntryView>, i: int, now: u64, ttl: u64)
    requires
        wf_entries(s),
        0 <= i < s.len(),
        age_of(s[i], now) > ttl,
    ensures
        !has_id(sweep_spec(s, now, ttl), s[i].id),
{
    let pred = |e: EntryView| age_of(e, now) <= ttl;
    let swept = s.filter(pred);
    lemma_filter_entries(s, pred);
    if has_id(swept, s[i].id) {
        let k = choose|k: int| 0 <= k < swept.len() && (#[trigger] swept[k]).id == s[i].id;
        s.lemma_filter_pred(pred, k);
        assert(swept.contains(swept[k]));
        assert(s.contains(swept[k]));
        let m = choose|m: int| 0 <= m < s.len() && s[m] == swept[k];
        assert(m == i) by {
            if m != i {
                assert(s[m].id != s[i].id);
            }
        }
        assert(pred(s[i]));
    }
}

/// The session store: entries under pairwise distinct tokens.
pub struct SessionStore {
    pub entries: Vec<StoredEntry>,
}

impl View for SessionStore {
    type V = Seq<EntryView>;

    open spec fn view(&self) -> Seq<EntryView> {
        self.entries@.map_values(|e: StoredEntry| e@)
    }
}

impl SessionStore {
    /// Tokens are pairwise distinct.
    pub open spec fn wf(&self) -> bool {
        wf_entries(self@)
    }

    /// The empty store.
    pub fn new() -> (r: SessionStore)
        ensures
            r@ == Seq::<EntryView>::empty(),
            r.wf(),
    {
        let r = SessionStore { entries: Vec::new() };
        proof {
            assert(r@ =~= Seq::<EntryView>::empty());
        }
        r
    }

    /// Does some entry carry this token?
    pub fn contains_id(&self, id: u128) -> (r: bool)
        ensures
            r == has_id(self@, id),
    {
        let n = self.entries.len();
        let mut i: usize = 0;
        while i < n
            invariant
                n == self.entries.len(),
                i <= n,
                forall|j: int| 0 <= j < i ==> (#[trigger] self@[j]).id != id,
            decreases n - i,
        {
            proof {
                assert(self@[i as int] == self.entries@[i as int]@);
            }
            if self.entries[i].id == id {
                return true;
            }
            i = i + 1;
        }
        proof {
            if has_id(self@, id) {
                let k = choose|k: int| 0 <= k < self@.len() && (#[trigger] self@[k]).id == id;
            }
        }
        false
    }

    /// Register a created session: draw a fresh random token, insert the
    /// session under it with the creation time, and return the token. The
    /// token generator decides: after a bounded number of colliding draws —
    /// never seen at any expected scale — no session is registered and
    /// nothing is returned.
    pub fn create(&mut self, session: QuizSession, now: u64) -> (r: Option<u128>)
        requires
            old(self).wf(),
        ensures
            final(self).wf(),
            r matches Some(id) ==> !has_id(old(self)@, id) && final(self)@ == old(self)@.push(
                EntryView { id, session: session@, created_at: now },
            ),
            r is None ==> final(self)@ == old(self)@,
    {
        let mut found: Option<u128> = None;
        let mut tries: usize = 0;
        loop
            invariant
                tries <= 8,
                self@ == old(self)@,
                old(self).wf(),
                found matches Some(id) ==> !has_id(self@, id),
            ensures
                self@ == old(self)@,
                found matches Some(id) ==> !has_id(self@, id),
            decreases 8 - tries,
        {
            if tries >= 8 {
                break;
            }
            let t = random_token();
            if !self.contains_id(t) {
                found = Some(t);
                break;
            }
            tries = tries + 1;
        }
        match found {
            Some(id) => {
                self.entries.push(StoredEntry { id, session, created_at: now });
                proof {
                    assert(self@ =~= old(self)@.push(
                        EntryView { id, session: session@, created_at: now },
                    ));
                    assert forall|i: int, j: int|
                        0 <= i < j < self@.len() implies (#[trigger] self@[i]).id != (
                    #[trigger] self@[j]).id by {
                        if j == self@.len() - 1 {
                            assert(old(self)@[i].id != id);
                        }
                    }
                }
                Some(id)
            },
            None => None,
        }
    }

    /// Consume a submission: remove the session if present and compare the
    /// selected category with its concealed answer. An absent session is no
    /// error: the verdict is incorrect with answer "unknown".
    pub fn consume(&mut self, id: u128, selected: &String) -> (r: Verdict)
        requires
            old(self).wf(),
        ensures
            final(self).wf(),
            final(self)@ == consume_store(old(self)@, id),
            r.correct == consume_verdict(old(self)@, id, selected@).0,
            r.correct_answer@ == consume_verdict(old(self)@, id, selected@).1,
    {
        let ghost s = self@;
        let n = self.entries.len();
        let mut i: usize = 0;
        while i < n
            invariant
                n == self.entries.len(),
                self@ == s,
                old(self)@ == s,
                old(self).wf(),
                self.wf(),
                i <= n,
                forall|j: int| 0 <= j < i ==> (#[trigger] s[j]).id != id,
                lookup_id_from(s, id, 0) == lookup_id_from(s, id, i as int),
            decreases n - i,
        {
            proof {
                assert(s[i as int] == self.entries@[i as int]@);
            }
            if self.entries[i].id == id {
                let entry = self.entries.remove(i);
                let correct = *selected == entry.session.answer_category;
                proof {
                    assert(entry@ == s[i as int]);
                    assert(lookup_id_from(s, id, i as int) == Some(s[i as int]));
                    assert(lookup_id(s, id) == Some(entry@));
                    assert(has_id(s, id));
                    lemma_drop_id_is_remove(s, i as int);
                    assert(self@ =~= s.remove(i as int));
                    assert(drop_id(s, id) == drop_id(s, s[i as int].id));
                    assert(self@ == consume_store(s, id));
                    lemma_filter_entries(s, |e: EntryView| e.id != id);
                    assert(consume_verdict(s, id, selected@).0 == (selected@
                        == entry@.session.answer_category));
                }
                return Verdict { correct, correct_answer: entry.session.answer_category };
            }
            i = i + 1;
        }
        proof {
            if has_id(s, id) {
                let k = choose|k: int| 0 <= k < s.len() && (#[trigger] s[k]).id == id;
            }
            lemma_lookup_id_props(s, id, 0);
            assert(consume_verdict(s, id, selected@) == (false, "unknown"@));
        }
        Verdict { correct: false, correct_answer: String::from_str("unknown") }
    }

    /// Remove every entry older than the TTL.
    pub fn sweep(&mut self, now: u64, ttl: u64)
        requires
            old(self).wf(),
        ensures
            final(self).wf(),
            final(self)@ == sweep_spec(old(self)@, now, ttl),
    {
        let ghost s = self@;
        let mut kept: Vec<StoredEntry> = Vec::new();
        let n = self.entries.len();
        let mut i: usize = 0;
        while i < n
            invariant
                n == self.entries.len(),
                self@ == s,
                i <= n,
                kept@.map_values(|e: StoredEntry| e@) == s.take(i as int).filter(
                    |e: EntryView| age_of(e, now) <= ttl,
                ),
            decreases n - i,
        {
            proof {
                reveal(Seq::filter);
                assert(s.take(i + 1).drop_last() =~= s.take(i as int));
                assert(s.take(i + 1).last() == s[i as int]);
                assert(s[i as int] == self.entries@[i as int]@);
            }
            let e = &self.entries[i];
            let age: u64 = if now >= e.created_at {
                now - e.created_at
            } else {
                0
            };
            proof {
                assert(age == age_of(s[i as int], now));
            }
            if age <= ttl {
                let kept_entry = StoredEntry {
                    id: e.id,
                    session: e.session.duplicate(),
                    created_at: e.created_at,
                };
                proof {
                    assert(kept_entry@ =~= s[i as int]);
                }
                kept.push(kept_entry);
            }
            proof {
                assert(kept@.map_values(|e: StoredEntry| e@) =~= s.take(i + 1).filter(
                    |e: EntryView| age_of(e, now) <= ttl,
                ));
            }
            i = i + 1;
        }
        proof {
            assert(s.take(n as int) =~= s);
        }
        self.entries = kept;
        proof {
            lemma_filter_entries(s, |e: EntryView| age_of(e, now) <= ttl);
        }
    }
}

/// Relies on `uuid::Uuid::new_v4` (a version-4 random UUID) read back as its
/// 128-bit value: nothing can be promised of a random token.
#[verifier::external_body]
fn random_token() -> (r: u128) {
    uuid::Uuid::new_v4().as_u128()
}

} // verus!
