//! The asset index: the catalog of ingested assets.
//!
//! The index is the in-memory form of the persisted catalog. Its invariant
//! is that filenames are unique: `upsert` drops any record carrying the new
//! record's filename before appending it. Similarity search looks up the
//! fingerprint of a named record and keeps every other record whose
//! fingerprint lies within a given Hamming distance.

use vstd::prelude::*;
use vstd::seq_lib::*;
use crate::fingerprint::{hamming_hex, hamming_hex_spec, parse_hash16};
use crate::fingerprint::lemma_self_distance_zero;

verus! {

/// One ingested asset: its unique filename, the byte size of the stored
/// original, whether a thumbnail was stored, its perceptual fingerprint (if
/// one was computed) and the upload timestamp.
pub struct AssetRecord {
    pub filename: String,
    pub size: u64,
    pub thumb: bool,
    pub phash: Option<String>,
    pub uploaded_at: String,
}

/// The mathematical shape of a record: every string replaced by its
/// character sequence.
#[verifier::ext_equal]
pub struct RecordView {
    pub filename: Seq<char>,
    pub size: u64,
    pub thumb: bool,
    pub phash: Option<Seq<char>>,
    pub uploaded_at: Seq<char>,
}

impl View for AssetRecord {
    type V = RecordView;

    open spec fn view(&self) -> RecordView {
        RecordView {
            filename: self.filename@,
            size: self.size,
            thumb: self.thumb,
            phash: match self.phash {
                Some(h) => Some(h@),
                None => None,
            },
            uploaded_at: self.uploaded_at@,
        }
    }
}

impl AssetRecord {
    /// An equal copy of the record.
    pub fn duplicate(&self) -> (c: AssetRecord)
        ensures
            c@ == self@,
    {
        let c = AssetRecord {
            filename: self.filename.clone(),
            size: self.size,
            thumb: self.thumb,
            phash: match &self.phash {
                Some(h) => Some(h.clone()),
                None => None,
            },
            uploaded_at: self.uploaded_at.clone(),
        };
        proof {
            assert(c@ =~= self@);
        }
        c
    }
}

/// Filenames are pairwise distinct.
pub open spec fn wf_seq(s: Seq<RecordView>) -> bool {
    forall|i: int, j: int|
        0 <= i < j < s.len() ==> (#[trigger] s[i]).filename != (#[trigger] s[j]).filename
}

/// Some record carries this filename.
pub open spec fn contains_name(s: Seq<RecordView>, name: Seq<char>) -> bool {
    exists|i: int| 0 <= i < s.len() && (#[trigger] s[i]).filename == name
}

/// The sequence with every record named `name` removed.
pub open spec fn drop_name(s: Seq<RecordView>, name: Seq<char>) -> Seq<RecordView> {
    s.filter(|r: RecordView| r.filename != name)
}

/// What `upsert` leaves behind: the old records minus any with the new
/// record's filename, with the new record appended.
pub open spec fn upsert_spec(s: Seq<RecordView>, rec: RecordView) -> Seq<RecordView> {
    drop_name(s, rec.filename).push(rec)
}

/// How many records carry this filename.
pub open spec fn count_name(s: Seq<RecordView>, name: Seq<char>) -> nat {
    s.filter(|r: RecordView| r.filename == name).len()
}

proof fn lemma_drop_name_props(s: Seq<RecordView>, name: Seq<char>)
    ensures
        forall|k: int|
            0 <= k < drop_name(s, name).len() ==> (#[trigger] drop_name(s, name)[k]).filename
                != name,
        forall|x: RecordView| #[trigger] drop_name(s, name).contains(x) ==> s.contains(x),
        wf_seq(s) ==> wf_seq(drop_name(s, name)),
        !contains_name(s, name) ==> drop_name(s, name) =~= s,
        forall|i: int|
            0 <= i < s.len() && (#[trigger] s[i]).filename != name ==> drop_name(
                s,
                name,
            ).contains(s[i]),
    decreases s.len(),
{
    reveal(Seq::filter);
    let d = drop_name(s, name);
    if s.len() == 0 {
        assert(d =~= s);
    } else {
        let s1 = s.drop_last();
        let last = s.last();
        lemma_drop_name_props(s1, name);
        let d1 = drop_name(s1, name);
        assert(forall|x: RecordView| #[trigger] s1.contains(x) ==> s.contains(x)) by {
            assert forall|x: RecordView| #[trigger] s1.contains(x) implies s.contains(x) by {
                let k = choose|k: int| 0 <= k < s1.len() && s1[k] == x;
                assert(s[k] == x);
            }
        }
        if last.filename != name {
            assert(d == d1.push(last));
            // the appended record's name differs from every name already kept
            if wf_seq(s) {
                assert forall|i: int, j: int|
                    0 <= i < j < d.len() implies (#[trigger] d[i]).filename
                    != (#[trigger] d[j]).filename by {
                    if j < d.len() - 1 {
                        assert(d1[i] == d[i] && d1[j] == d[j]);
                    } else {
                        assert(d[j] == last);
                        assert(d1.contains(d1[i]));
                        let k = choose|k: int| 0 <= k < s1.len() && s1[k] == d1[i];
                        assert(s[k] == d1[i]);
                        assert(s[k].filename != s[s.len() - 1].filename);
                    }
                }
            }
            assert forall|i: int|
                0 <= i < s.len() && (#[trigger] s[i]).filename != name implies d.contains(
                s[i],
            ) by {
                if i < s.len() - 1 {
                    assert(d1.contains(s1[i]));
                    let k = choose|k: int| 0 <= k < d1.len() && d1[k] == s1[i];
                    assert(d[k] == s[i]);
                } else {
                    assert(d[d.len() - 1] == s[i]);
                }
            }
            assert forall|x: RecordView| #[trigger] d.contains(x) implies s.contains(x) by {
                let k = choose|k: int| 0 <= k < d.len() && d[k] == x;
                if k < d.len() - 1 {
                    assert(d1.contains(x));
                } else {
                    assert(s[s.len() - 1] == x);
                }
            }
            if !contains_name(s, name) {
                assert(!contains_name(s1, name)) by {
                    if contains_name(s1, name) {
                        let k = choose|k: int|
                            0 <= k < s1.len() && (#[trigger] s1[k]).filename == name;
                        assert(s[k].filename == name);
                    }
                }
                assert(d =~= s);
            }
        } else {
            assert(d == d1);
            assert(contains_name(s, name)) by {
                assert(s[s.len() - 1].filename == name);
            }
            assert forall|i: int|
                0 <= i < s.len() && (#[trigger] s[i]).filename != name implies d.contains(
                s[i],
            ) by {
                assert(i < s.len() - 1);
                assert(d1.contains(s1[i]));
            }
            assert forall|x: RecordView| #[trigger] d.contains(x) implies s.contains(x) by {
                assert(d1.contains(x));
            }
        }
    }
}

/// Law: an upsert leaves exactly one record carrying the upserted filename,
/// whether or not one was there before.
pub proof fn lemma_upsert_one_record(s: Seq<RecordView>, rec: RecordView)
    ensures
        count_name(upsert_spec(s, rec), rec.filename) == 1,
{
    reveal(Seq::filter);
    let name = rec.filename;
    let d = drop_name(s, name);
    lemma_drop_name_props(s, name);
    lemma_none_match_filter_empty(d, name);
    assert(upsert_spec(s, rec).drop_last() == d);
    assert(upsert_spec(s, rec).last() == rec);
}

proof fn lemma_none_match_filter_empty(d: Seq<RecordView>, name: Seq<char>)
    requires
        forall|k: int| 0 <= k < d.len() ==> (#[trigger] d[k]).filename != name,
    ensures
        d.filter(|r: RecordView| r.filename == name).len() == 0,
    decreases d.len(),
{
    reveal(Seq::filter);
    if d.len() > 0 {
        lemma_none_match_filter_empty(d.drop_last(), name);
    }
}

/// The records as they stand after a sequence of upserts, applied in order.
pub open spec fn upsert_all(s: Seq<RecordView>, recs: Seq<RecordView>) -> Seq<RecordView>
    decreases recs.len(),
{
    if recs.len() == 0 {
        s
    } else {
        upsert_all(upsert_spec(s, recs[0]), recs.drop_first())
    }
}

/// Law: upserting any number of records whose filenames are pairwise
/// distinct and absent from the index leaves an index holding exactly the
/// old records plus all the new ones — none is lost. Concurrent ingestions
/// serialize their load-modify-save cycles, so any interleaving is some
/// order of these upserts.
pub proof fn lemma_distinct_upserts_lose_nothing(s: Seq<RecordView>, recs: Seq<RecordView>)
    requires
        wf_seq(s),
        forall|i: int, j: int|
            0 <= i < j < recs.len() ==> (#[trigger] recs[i]).filename != (
            #[trigger] recs[j]).filename,
        forall|i: int| 0 <= i < recs.len() ==> !contains_name(s, (#[trigger] recs[i]).filename),
    ensures
        upsert_all(s, recs).len() == s.len() + recs.len(),
        wf_seq(upsert_all(s, recs)),
        forall|i: int| 0 <= i < recs.len() ==> upsert_all(s, recs).contains(#[trigger] recs[i]),
        forall|i: int| 0 <= i < s.len() ==> upsert_all(s, recs).contains(#[trigger] s[i]),
    decreases recs.len(),
{
    if recs.len() > 0 {
        let r0 = recs[0];
        let s2 = upsert_spec(s, r0);
        lemma_drop_name_props(s, r0.filename);
        assert(drop_name(s, r0.filename) =~= s);
        assert(s2 =~= s.push(r0));
        assert(wf_seq(s2)) by {
            assert forall|i: int, j: int|
                0 <= i < j < s2.len() implies (#[trigger] s2[i]).filename
                != (#[trigger] s2[j]).filename by {
                if j == s2.len() - 1 {
                    assert(s2[j] == r0);
                    assert(s[i].filename != r0.filename);
                }
            }
        }
        let recs1 = recs.drop_first();
        assert(forall|i: int|
            0 <= i < recs1.len() ==> !contains_name(s2, (#[trigger] recs1[i]).filename)) by {
            assert forall|i: int|
                0 <= i < recs1.len() implies !contains_name(
                s2,
                (#[trigger] recs1[i]).filename,
            ) by {
                assert(recs1[i] == recs[i + 1]);
                if contains_name(s2, recs1[i].filename) {
                    let k = choose|k: int|
                        0 <= k < s2.len() && (#[trigger] s2[k]).filename == recs1[i].filename;
                    if k < s2.len() - 1 {
                        assert(s[k].filename == recs1[i].filename);
                    } else {
                        assert(r0.filename == recs1[i].filename);
                    }
                }
            }
        }
        lemma_distinct_upserts_lose_nothing(s2, recs1);
        let fin = upsert_all(s, recs);
        assert(fin == upsert_all(s2, recs1));
        assert forall|i: int| 0 <= i < recs.len() implies fin.contains(#[trigger] recs[i]) by {
            if i == 0 {
                assert(s2[s2.len() - 1] == r0);
                assert(fin.contains(s2[s2.len() - 1]));
            } else {
                assert(recs1[i - 1] == recs[i]);
            }
        }
        assert forall|i: int| 0 <= i < s.len() implies fin.contains(#[trigger] s[i]) by {
            assert(s2[i] == s[i]);
            assert(fin.contains(s2[i]));
        }
    }
}

/// The first record carrying this filename, searched from position `i` on.
pub open spec fn lookup_from(s: Seq<RecordView>, name: Seq<char>, i: int) -> Option<RecordView>
    decreases s.len() - i,
{
    if i < 0 || i >= s.len() {
        None
    } else if s[i].filename == name {
        Some(s[i])
    } else {
        lookup_from(s, name, i + 1)
    }
}

/// The record carrying this filename, if any.
pub open spec fn lookup(s: Seq<RecordView>, name: Seq<char>) -> Option<RecordView> {
    lookup_from(s, name, 0)
}

proof fn lemma_lookup_props(s: Seq<RecordView>, name: Seq<char>, i: int)
    requires
        0 <= i <= s.len(),
    ensures
        lookup_from(s, name, i) is Some <==> exists|k: int|
            i <= k < s.len() && (#[trigger] s[k]).filename == name,
        lookup_from(s, name, i) matches Some(x) ==> x.filename == name && exists|k: int|
            i <= k < s.len() && s[k] == x,
    decreases s.len() - i,
{
    if i < s.len() {
        lemma_lookup_props(s, name, i + 1);
        if s[i].filename == name {
            assert(s[i].filename == name);
        }
    }
}

/// A record in the search result: not the queried record itself, and its
/// fingerprint lies within the given distance of the base fingerprint.
pub open spec fn similar_pred(
    r: RecordView,
    name: Seq<char>,
    base: Seq<char>,
    max: u32,
) -> bool {
    &&& r.filename != name
    &&& match r.phash {
        Some(h) => match hamming_hex_spec(base, h) {
            Some(d) => d <= max,
            None => false,
        },
        None => false,
    }
}

/// What a similarity search returns: nothing when no record carries the
/// queried filename; else every other record whose fingerprint lies within
/// `max` of the queried record's fingerprint (an absent fingerprint on the
/// queried record matches nothing).
pub open spec fn find_similar_spec(s: Seq<RecordView>, name: Seq<char>, max: u32) -> Seq<
    RecordView,
> {
    match lookup(s, name) {
        None => Seq::empty(),
        Some(base_rec) => {
            let base = match base_rec.phash {
                Some(h) => h,
                None => Seq::empty(),
            };
            s.filter(|r: RecordView| similar_pred(r, name, base, max))
        },
    }
}

/// Law: after upserting an exact duplicate of a fingerprinted record under a
/// different filename, a similarity search for the original at distance zero
/// finds the duplicate.
pub proof fn lemma_duplicate_found(s: Seq<RecordView>, i: int, dup: RecordView)
    requires
        wf_seq(s),
        0 <= i < s.len(),
        s[i].phash is Some,
        parse_hash16(s[i].phash.unwrap()) is Some,
        dup.filename != s[i].filename,
        dup.phash == s[i].phash,
    ensures
        find_similar_spec(upsert_spec(s, dup), s[i].filename, 0).contains(dup),
{
    let name = s[i].filename;
    let s2 = upsert_spec(s, dup);
    lemma_drop_name_props(s, dup.filename);
    let d = drop_name(s, dup.filename);
    assert(d.contains(s[i]));
    let k = choose|k: int| 0 <= k < d.len() && d[k] == s[i];
    assert(s2[k] == s[i]);
    lemma_lookup_props(s2, name, 0);
    assert(lookup(s2, name) is Some);
    let x = lookup(s2, name).unwrap();
    let kx = choose|kx: int| 0 <= kx < s2.len() && s2[kx] == x;
    // filenames are unique in the upserted sequence, so the lookup hit is s[i]
    assert(wf_seq(s2)) by {
        assert(wf_seq(d));
        assert forall|a: int, b: int|
            0 <= a < b < s2.len() implies (#[trigger] s2[a]).filename
            != (#[trigger] s2[b]).filename by {
            if b == s2.len() - 1 {
                assert(s2[b] == dup);
                assert(d[a].filename != dup.filename);
            }
        }
    }
    assert(x == s[i]) by {
        if kx != k {
            assert(s2[kx].filename == s2[k].filename);
        }
    }
    let base = s[i].phash.unwrap();
    lemma_self_distance_zero(base);
    assert(similar_pred(dup, name, base, 0));
    assert(s2[s2.len() - 1] == dup);
    s2.lemma_filter_contains(|r: RecordView| similar_pred(r, name, base, 0), s2.len() - 1);
}

/// The asset index: the catalog records, filenames unique.
pub struct AssetIndex {
    pub records: Vec<AssetRecord>,
}

impl View for AssetIndex {
    type V = Seq<RecordView>;

    open spec fn view(&self) -> Seq<RecordView> {
        self.records@.map_values(|r: AssetRecord| r@)
    }
}

impl AssetIndex {
    /// Filenames are pairwise distinct.
    pub open spec fn wf(&self) -> bool {
        wf_seq(self@)
    }

    /// The empty catalog: what an absent catalog file stands for.
    pub fn new() -> (r: AssetIndex)
        ensures
            r@ == Seq::<RecordView>::empty(),
            r.wf(),
    {
        let r = AssetIndex { records: Vec::new() };
        proof {
            assert(r@ =~= Seq::<RecordView>::empty());
        }
        r
    }

    /// Replace any record carrying the new record's filename and append the
    /// new record: the load-modify part of the catalog's critical section.
    pub fn upsert(&mut self, rec: AssetRecord)
        requires
            old(self).wf(),
        ensures
            final(self)@ == upsert_spec(old(self)@, rec@),
            final(self).wf(),
    {
        let ghost s = self@;
        let ghost name = rec@.filename;
        let mut kept: Vec<AssetRecord> = Vec::new();
        let n = self.records.len();
        let mut i: usize = 0;
        while i < n
            invariant
                n == self.records.len(),
                self@ == s,
                i <= n,
                kept@.map_values(|r: AssetRecord| r@) == drop_name(s.take(i as int), name),
                rec@.filename == name,
            decreases n - i,
        {
            proof {
                reveal(Seq::filter);
                assert(s.take(i + 1).drop_last() =~= s.take(i as int));
                assert(s.take(i + 1).last() == s[i as int]);
                assert(s[i as int] == self.records@[i as int]@);
            }
            if !(self.records[i].filename == rec.filename) {
                let c = self.records[i].duplicate();
                kept.push(c);
                proof {
                    assert(kept@.map_values(|r: AssetRecord| r@) =~= drop_name(
                        s.take(i + 1),
                        name,
                    ));
                }
            } else {
                proof {
                    assert(kept@.map_values(|r: AssetRecord| r@) =~= drop_name(
                        s.take(i + 1),
                        name,
                    ));
                }
            }
            i = i + 1;
        }
        proof {
            assert(s.take(n as int) =~= s);
        }
        kept.push(rec);
        self.records = kept;
        proof {
            assert(self@ =~= drop_name(s, name).push(rec@));
            lemma_drop_name_props(s, name);
            assert forall|a: int, b: int|
                0 <= a < b < self@.len() implies (#[trigger] self@[a]).filename
                != (#[trigger] self@[b]).filename by {
                let d = drop_name(s, name);
                if b == self@.len() - 1 {
                    assert(d[a].filename != name);
                }
            }
        }
    }

    /// The filenames of all records, in order.
    pub fn filenames(&self) -> (r: Vec<String>)
        ensures
            r@.map_values(|s: String| s@) == self@.map_values(|rv: RecordView| rv.filename),
            r@.len() == self@.len(),
    {
        let mut out: Vec<String> = Vec::new();
        let n = self.records.len();
        let mut i: usize = 0;
        while i < n
            invariant
                n == self.records.len(),
                i <= n,
                out@.len() == i,
                out@.map_values(|s: String| s@) == self@.take(i as int).map_values(
                    |rv: RecordView| rv.filename,
                ),
            decreases n - i,
        {
            proof {
                assert(self@[i as int] == self.records@[i as int]@);
            }
            let ghost prev = out@;
            out.push(self.records[i].filename.clone());
            proof {
                assert(out@[i as int]@ == self@[i as int].filename);
                assert(self@.take(i + 1)[i as int] == self@[i as int]);
                assert forall|j: int|
                    0 <= j < i + 1 implies (#[trigger] out@[j])@ == self@.take(i + 1).map_values(
                    |rv: RecordView| rv.filename,
                )[j] by {
                    if j < i {
                        assert(out@[j] == prev[j]);
                        assert(prev.map_values(|s: String| s@)[j] == self@.take(
                            i as int,
                        ).map_values(|rv: RecordView| rv.filename)[j]);
                        assert(self@.take(i as int)[j] == self@.take(i + 1)[j]);
                    }
                }
                assert(out@.map_values(|s: String| s@) =~= self@.take(i + 1).map_values(
                    |rv: RecordView| rv.filename,
                ));
            }
            i = i + 1;
        }
        proof {
            assert(self@.take(n as int) =~= self@);
        }
        out
    }

    /// Similarity search: the records other than `filename` whose
    /// fingerprints lie within `max_distance` of its fingerprint.
    pub fn find_similar(&self, filename: &String, max_distance: u32) -> (r: Vec<AssetRecord>)
        ensures
            r@.map_values(|x: AssetRecord| x@) == find_similar_spec(
                self@,
                filename@,
                max_distance,
            ),
    {
        let ghost s = self@;
        let n = self.records.len();
        let mut i: usize = 0;
        loop
            invariant
                n == self.records.len(),
                self@ == s,
                i <= n,
                forall|j: int| 0 <= j < i ==> (#[trigger] s[j]).filename != filename@,
                lookup_from(s, filename@, 0) == lookup_from(s, filename@, i as int),
            ensures
                self@ == s,
                n == self.records.len(),
                if i < n {
                    lookup(s, filename@) == Some(s[i as int]) && s[i as int].filename
                        == filename@
                } else {
                    lookup(s, filename@) is None
                },
            decreases n - i,
        {
            if i >= n {
                break;
            }
            if self.records[i].filename == *filename {
                proof {
                    assert(s[i as int] == self.records@[i as int]@);
                }
                break;
            }
            proof {
                assert(s[i as int] == self.records@[i as int]@);
            }
            i = i + 1;
        }
        if i >= n {
            let r: Vec<AssetRecord> = Vec::new();
            proof {
                assert(r@.map_values(|x: AssetRecord| x@) =~= Seq::<RecordView>::empty());
            }
            return r;
        }
        let base: String = match &self.records[i].phash {
            Some(h) => h.clone(),
            None => String::new(),
        };
        let ghost basev = base@;
        proof {
            assert(match s[i as int].phash {
                Some(h) => basev == h,
                None => basev == Seq::<char>::empty(),
            });
        }
        let mut out: Vec<AssetRecord> = Vec::new();
        let mut j: usize = 0;
        while j < n
            invariant
                n == self.records.len(),
                self@ == s,
                j <= n,
                basev == base@,
                out@.map_values(|x: AssetRecord| x@) == s.take(j as int).filter(
                    |r: RecordView| similar_pred(r, filename@, basev, max_distance),
                ),
            decreases n - j,
        {
            proof {
                reveal(Seq::filter);
                assert(s.take(j + 1).drop_last() =~= s.take(j as int));
                assert(s.take(j + 1).last() == s[j as int]);
                assert(s[j as int] == self.records@[j as int]@);
            }
            let e = &self.records[j];
            proof {
                assert(e@ == s[j as int]);
            }
            let mut keep = false;
            let same_name = e.filename == *filename;
            proof {
                assert(same_name == (s[j as int].filename == filename@));
            }
            if !same_name {
                match &e.phash {
                    Some(h) => {
                        proof {
                            assert(s[j as int].phash == Some(h@));
                        }
                        match hamming_hex(base.as_str(), h.as_str()) {
                            Some(dist) => {
                                proof {
                                    assert(hamming_hex_spec(basev, h@) == Some(dist));
                                }
                                if dist <= max_distance {
                                    keep = true;
                                }
                            },
                            None => {},
                        }
                    },
                    None => {},
                }
            }
            proof {
                assert(keep == similar_pred(s[j as int], filename@, basev, max_distance));
            }
            if keep {
                out.push(self.records[j].duplicate());
            }
            proof {
                assert(out@.map_values(|x: AssetRecord| x@) =~= s.take(j + 1).filter(
                    |r: RecordView| similar_pred(r, filename@, basev, max_distance),
                ));
            }
            j = j + 1;
        }
        proof {
            assert(s.take(n as int) =~= s);
        }
        out
    }
}

/// What an administrative listing shows of one asset.
pub struct ListEntry {
    pub filename: String,
    pub size: u64,
    pub thumb: bool,
}

/// The listing of the whole catalog, record by record.
pub fn list_entries(index: &AssetIndex) -> (r: Vec<ListEntry>)
    ensures
        r@.len() == index@.len(),
        forall|i: int|
            0 <= i < r@.len() ==> (#[trigger] r@[i]).filename@ == index@[i].filename && r@[i].size
                == index@[i].size && r@[i].thumb == index@[i].thumb,
{
    let mut out: Vec<ListEntry> = Vec::new();
    let n = index.records.len();
    let mut i: usize = 0;
    while i < n
        invariant
            n == index.records.len(),
            i <= n,
            out@.len() == i,
            forall|k: int|
                0 <= k < i ==> (#[trigger] out@[k]).filename@ == index@[k].filename && out@[k].size
                    == index@[k].size && out@[k].thumb == index@[k].thumb,
        decreases n - i,
    {
        proof {
            assert(index@[i as int] == index.records@[i as int]@);
        }
        out.push(ListEntry {
            filename: index.records[i].filename.clone(),
            size: index.records[i].size,
            thumb: index.records[i].thumb,
        });
        i = i + 1;
    }
    out
}

/// The fixed path of the persisted catalog file within the asset storage
/// root.
pub fn index_path() -> (r: String)
    ensures
        r@ == "public/assets/index.json"@,
{
    String::from_str("public/assets/index.json")
}

} // verus!
