//! Filename sanitation and collision-free renaming.
//!
//! An upload's suggested filename is first sanitized — every character
//! outside `[A-Za-z0-9._-]` becomes `_` — and then, should the sanitized
//! name already be taken, an incrementing numeric suffix is inserted before
//! the extension until a free name is found. The search provably terminates:
//! the tried candidates are pairwise distinct, so after at most one try per
//! existing name a free one must appear.

use vstd::prelude::*;
use vstd::seq_lib::*;
use vstd::set_lib::lemma_len_subset;
use crate::text::{all_ascii, ascii_to_string};

verus! {

/// A character a sanitized filename may keep: ASCII alphanumerics, dot,
/// dash and underscore.
pub open spec fn allowed_char(c: char) -> bool {
    let n = c as u32;
    (48 <= n && n <= 57) || (65 <= n && n <= 90) || (97 <= n && n <= 122) || n == 46 || n == 45
        || n == 95
}

pub open spec fn sanitize_char(c: char) -> char {
    if allowed_char(c) {
        c
    } else {
        '_'
    }
}

/// The sanitized form of a filename: every disallowed character replaced by
/// an underscore.
pub open spec fn sanitize_spec(s: Seq<char>) -> Seq<char> {
    s.map_values(|c: char| sanitize_char(c))
}

/// The name holds a path separator and is rejected outright.
pub open spec fn has_separator(s: Seq<char>) -> bool {
    exists|i: int| 0 <= i < s.len() && ((#[trigger] s[i]) == '/' || s[i] == '\\')
}

/// Does this filename hold a path separator?
pub fn has_path_separator(name: &str) -> (r: bool)
    ensures
        r == has_separator(name@),
{
    let n = name.unicode_len();
    let mut i: usize = 0;
    while i < n
        invariant
            n == name@.len(),
            i <= n,
            forall|j: int| 0 <= j < i ==> (#[trigger] name@[j]) != '/' && name@[j] != '\\',
        decreases n - i,
    {
        let c = name.get_char(i);
        if c == '/' || c == '\\' {
            return true;
        }
        i = i + 1;
    }
    false
}

/// Sanitize a filename, as a vector of ASCII bytes.
fn sanitize_bytes(name: &str) -> (r: Vec<u8>)
    ensures
        all_ascii(r@),
        r@.len() == name@.len(),
        forall|i: int| 0 <= i < r@.len() ==> (#[trigger] r@[i]) as char == sanitize_spec(name@)[i],
{
    let n = name.unicode_len();
    let mut out: Vec<u8> = Vec::new();
    let mut i: usize = 0;
    while i < n
        invariant
            n == name@.len(),
            i <= n,
            out@.len() == i,
            all_ascii(out@),
            forall|j: int|
                0 <= j < i ==> (#[trigger] out@[j]) as char == sanitize_spec(name@)[j],
        decreases n - i,
    {
        let c = name.get_char(i);
        let code = c as u32;
        let keep = (48 <= code && code <= 57) || (65 <= code && code <= 90) || (97 <= code
            && code <= 122) || code == 46 || code == 45 || code == 95;
        if keep {
            out.push(code as u8);
        } else {
            out.push(95);
        }
        i = i + 1;
    }
    out
}

/// Sanitize a filename: every character outside `[A-Za-z0-9._-]` becomes an
/// underscore.
pub fn sanitize_filename(name: &str) -> (r: String)
    ensures
        r@ == sanitize_spec(name@),
{
    let bytes = sanitize_bytes(name);
    let r = ascii_to_string(bytes);
    proof {
        assert(r@ =~= sanitize_spec(name@));
    }
    r
}

/// The decimal digit character of a value below ten.
pub open spec fn digit_char(d: int) -> char {
    if d == 0 {
        '0'
    } else if d == 1 {
        '1'
    } else if d == 2 {
        '2'
    } else if d == 3 {
        '3'
    } else if d == 4 {
        '4'
    } else if d == 5 {
        '5'
    } else if d == 6 {
        '6'
    } else if d == 7 {
        '7'
    } else if d == 8 {
        '8'
    } else {
        '9'
    }
}

/// The value of a decimal digit character (ten on any other character).
pub open spec fn digit_val(c: char) -> int {
    if c == '0' {
        0
    } else if c == '1' {
        1
    } else if c == '2' {
        2
    } else if c == '3' {
        3
    } else if c == '4' {
        4
    } else if c == '5' {
        5
    } else if c == '6' {
        6
    } else if c == '7' {
        7
    } else if c == '8' {
        8
    } else if c == '9' {
        9
    } else {
        10
    }
}

/// The decimal rendering of a number, most significant digit first.
pub open spec fn dec_chars(n: nat) -> Seq<char>
    decreases n,
{
    if n < 10 {
        seq![digit_char(n as int)]
    } else {
        dec_chars(n / 10).push(digit_char((n % 10) as int))
    }
}

/// The number a digit sequence spells.
pub open spec fn dec_value(s: Seq<char>) -> int
    decreases s.len(),
{
    if s.len() == 0 {
        0
    } else {
        dec_value(s.drop_last()) * 10 + digit_val(s.last())
    }
}

proof fn lemma_dec_roundtrip(n: nat)
    ensures
        dec_value(dec_chars(n)) == n,
        dec_chars(n).len() >= 1,
    decreases n,
{
    if n < 10 {
        assert(dec_chars(n) =~= seq![digit_char(n as int)]);
        assert(dec_chars(n).drop_last() =~= Seq::<char>::empty());
        assert(dec_chars(n).last() == digit_char(n as int));
        assert(dec_value(Seq::<char>::empty()) == 0);
        assert(digit_val(digit_char(n as int)) == n);
        assert(dec_value(dec_chars(n)) == dec_value(dec_chars(n).drop_last()) * 10 + digit_val(
            dec_chars(n).last(),
        ));
    } else {
        lemma_dec_roundtrip(n / 10);
        assert(dec_chars(n).drop_last() =~= dec_chars(n / 10));
        assert(dec_chars(n).last() == digit_char((n % 10) as int));
        assert(digit_val(digit_char((n % 10) as int)) == (n % 10) as int);
        assert((n / 10) * 10 + (n % 10) == n) by {
            vstd::arithmetic::div_mod::lemma_fundamental_div_mod(n as int, 10);
        }
    }
}

proof fn lemma_dec_injective(a: nat, b: nat)
    requires
        dec_chars(a) == dec_chars(b),
    ensures
        a == b,
{
    lemma_dec_roundtrip(a);
    lemma_dec_roundtrip(b);
}

/// Where the last dot sits, scanning down from position `i`; a dot in
/// position zero does not count (a leading dot starts the stem, it marks no
/// extension).
pub open spec fn last_dot_from(s: Seq<char>, i: int) -> int
    decreases i + 1,
{
    if i < 1 {
        -1
    } else if i >= s.len() {
        last_dot_from(s, s.len() - 1)
    } else if s[i] == '.' {
        i
    } else {
        last_dot_from(s, i - 1)
    }
}

/// Where a numeric suffix is inserted: before the last dot, or at the end of
/// a name without an extension.
pub open spec fn insert_point(s: Seq<char>) -> int {
    let p = last_dot_from(s, s.len() - 1);
    if p >= 1 {
        p
    } else {
        s.len() as int
    }
}

/// Candidate number `k` for a taken name: a dash and the decimal suffix,
/// inserted before the extension.
pub open spec fn candidate_spec(s: Seq<char>, k: nat) -> Seq<char> {
    let p = insert_point(s);
    s.take(p) + seq!['-'] + dec_chars(k) + s.skip(p)
}

proof fn lemma_last_dot_bounds(s: Seq<char>, i: int)
    ensures
        -1 <= last_dot_from(s, i) < s.len(),
        last_dot_from(s, i) >= 1 ==> s[last_dot_from(s, i)] == '.',
    decreases i + 1,
{
    if i >= 1 {
        if i >= s.len() {
            lemma_last_dot_bounds(s, s.len() - 1);
        } else if s[i] != '.' {
            lemma_last_dot_bounds(s, i - 1);
        }
    }
}

proof fn lemma_candidate_injective(s: Seq<char>, k1: nat, k2: nat)
    requires
        candidate_spec(s, k1) == candidate_spec(s, k2),
    ensures
        k1 == k2,
{
    lemma_last_dot_bounds(s, s.len() - 1);
    let p = insert_point(s);
    lemma_dec_roundtrip(k1);
    lemma_dec_roundtrip(k2);
    let c1 = candidate_spec(s, k1);
    let c2 = candidate_spec(s, k2);
    let d1 = dec_chars(k1);
    let d2 = dec_chars(k2);
    assert(c1.len() == p + 1 + d1.len() + (s.len() - p));
    assert(c2.len() == p + 1 + d2.len() + (s.len() - p));
    assert(d1.len() == d2.len());
    assert(d1 =~= c1.subrange(p + 1, p + 1 + d1.len() as int)) by {
        assert(forall|j: int|
            0 <= j < d1.len() ==> c1[p + 1 + j] == #[trigger] d1[j]);
    }
    assert(d2 =~= c2.subrange(p + 1, p + 1 + d2.len() as int)) by {
        assert(forall|j: int|
            0 <= j < d2.len() ==> c2[p + 1 + j] == #[trigger] d2[j]);
    }
    assert(d1 == d2);
    lemma_dec_injective(k1, k2);
}

/// The set of names tried before candidate `m + 1`: the sanitized name and
/// the first `m` candidates.
spec fn tried_set(s: Seq<char>, m: nat) -> Set<Seq<char>> {
    Set::new(
        |c: Seq<char>| c == s || exists|j: nat| 1 <= j <= m && c == candidate_spec(s, j),
    )
}

proof fn lemma_tried_set_card(s: Seq<char>, m: nat)
    ensures
        tried_set(s, m).finite(),
        tried_set(s, m).len() == m + 1,
    decreases m,
{
    lemma_dec_roundtrip(m);
    lemma_last_dot_bounds(s, s.len() - 1);
    if m == 0 {
        assert(tried_set(s, 0) =~= Set::empty().insert(s));
    } else {
        lemma_tried_set_card(s, (m - 1) as nat);
        let cm = candidate_spec(s, m);
        assert(tried_set(s, m) =~= tried_set(s, (m - 1) as nat).insert(cm));
        // the new candidate is longer than the bare name and differs from
        // every earlier candidate
        assert(cm.len() > s.len());
        assert(!tried_set(s, (m - 1) as nat).contains(cm)) by {
            if tried_set(s, (m - 1) as nat).contains(cm) {
                let j = choose|j: nat| 1 <= j <= m - 1 && cm == candidate_spec(s, j);
                lemma_candidate_injective(s, m, j);
            }
        }
    }
}

proof fn lemma_tried_bound(names: Seq<Seq<char>>, s: Seq<char>, m: nat)
    requires
        names.contains(s),
        forall|j: nat| 1 <= j <= m ==> names.contains(#[trigger] candidate_spec(s, j)),
    ensures
        m + 1 <= names.len(),
{
    broadcast use seq_to_set_is_finite;

    lemma_tried_set_card(s, m);
    names.lemma_cardinality_of_set();
    assert(tried_set(s, m).subset_of(names.to_set())) by {
        assert forall|c: Seq<char>| tried_set(s, m).contains(c) implies names.to_set().contains(
            c,
        ) by {
            assert(names.contains(c));
        }
    }
    lemma_len_subset(tried_set(s, m), names.to_set());
}

/// Is this name among the existing ones?
fn name_taken(existing: &Vec<String>, cand: &String) -> (r: bool)
    ensures
        r == existing@.map_values(|s: String| s@).contains(cand@),
{
    let ghost names = existing@.map_values(|s: String| s@);
    let n = existing.len();
    let mut i: usize = 0;
    while i < n
        invariant
            n == existing@.len(),
            i <= n,
            names == existing@.map_values(|s: String| s@),
            forall|j: int| 0 <= j < i ==> names[j] != cand@,
        decreases n - i,
    {
        if existing[i] == *cand {
            proof {
                assert(names[i as int] == cand@);
            }
            return true;
        }
        i = i + 1;
    }
    proof {
        if names.contains(cand@) {
            let k = choose|k: int| 0 <= k < names.len() && names[k] == cand@;
        }
    }
    false
}

/// Where the numeric suffix goes: the position of the last dot (not in
/// position zero), or the end of the name.
fn insert_pos(bytes: &Vec<u8>) -> (p: usize)
    requires
        all_ascii(bytes@),
    ensures
        p as int == insert_point(bytes@.map_values(|b: u8| b as char)),
        p <= bytes@.len(),
{
    let ghost s = bytes@.map_values(|b: u8| b as char);
    let n = bytes.len();
    let mut i: usize = n;
    while i > 1
        invariant
            n == bytes@.len(),
            i <= n,
            s == bytes@.map_values(|b: u8| b as char),
            last_dot_from(s, n - 1) == last_dot_from(s, i - 1),
        decreases i,
    {
        i = i - 1;
        if bytes[i] == 46 {
            proof {
                assert(s[i as int] == '.');
                assert(last_dot_from(s, i as int) == i as int);
            }
            return i;
        }
        proof {
            assert(s[i as int] != '.');
        }
    }
    proof {
        assert(last_dot_from(s, i - 1) == -1);
    }
    n
}

/// Append the decimal rendering of a number, as ASCII digits.
fn push_dec(n: u64, out: &mut Vec<u8>)
    ensures
        final(out)@.len() == old(out)@.len() + dec_chars(n as nat).len(),
        final(out)@.take(old(out)@.len() as int) == old(out)@,
        forall|i: int|
            old(out)@.len() <= i < final(out)@.len() ==> 48 <= #[trigger] final(out)@[i] <= 57,
        final(out)@.skip(old(out)@.len() as int).map_values(|b: u8| b as char) == dec_chars(
            n as nat,
        ),
    decreases n,
{
    if n >= 10 {
        push_dec(n / 10, out);
    }
    let d: u8 = 48 + (n % 10) as u8;
    out.push(d);
    proof {
        let pre = old(out)@;
        let fin = out@;
        assert(d as char == digit_char((n % 10) as int));
        if n < 10 {
            assert(fin.take(pre.len() as int) =~= pre);
            assert(fin.skip(pre.len() as int).map_values(|b: u8| b as char) =~= dec_chars(
                n as nat,
            ));
        } else {
            let mid = fin.drop_last();
            assert(mid.take(pre.len() as int) == pre);
            assert(fin.take(pre.len() as int) =~= mid.take(pre.len() as int));
            assert(fin.skip(pre.len() as int) =~= mid.skip(pre.len() as int).push(d));
            assert(fin.skip(pre.len() as int).map_values(|b: u8| b as char) =~= mid.skip(
                pre.len() as int,
            ).map_values(|b: u8| b as char).push(d as char));
            assert(dec_chars(n as nat) == dec_chars((n as nat) / 10).push(
                digit_char(((n as nat) % 10) as int),
            ));
            assert((n as nat) / 10 == (n / 10) as nat);
            assert(((n as nat) % 10) as int == (n % 10) as int);
        }
    }
}

/// Candidate number `k` for a taken sanitized name.
fn build_candidate(bytes: &Vec<u8>, p: usize, k: u64) -> (r: String)
    requires
        all_ascii(bytes@),
        p <= bytes@.len(),
        p as int == insert_point(bytes@.map_values(|b: u8| b as char)),
    ensures
        r@ == candidate_spec(bytes@.map_values(|b: u8| b as char), k as nat),
{
    let ghost s = bytes@.map_values(|b: u8| b as char);
    let mut out: Vec<u8> = Vec::new();
    let mut i: usize = 0;
    while i < p
        invariant
            i <= p,
            p <= bytes@.len(),
            all_ascii(bytes@),
            out@ == bytes@.take(i as int),
        decreases p - i,
    {
        out.push(bytes[i]);
        proof {
            assert(out@ =~= bytes@.take(i + 1));
        }
        i = i + 1;
    }
    out.push(45);
    let ghost pre = out@;
    push_dec(k, &mut out);
    let ghost mid = out@;
    let ghost dlen = dec_chars(k as nat).len() as int;
    let n = bytes.len();
    let mut j: usize = p;
    while j < n
        invariant
            p <= j <= n,
            n == bytes@.len(),
            all_ascii(bytes@),
            out@ == mid + bytes@.subrange(p as int, j as int),
        decreases n - j,
    {
        out.push(bytes[j]);
        proof {
            assert(out@ =~= mid + bytes@.subrange(p as int, j + 1));
        }
        j = j + 1;
    }
    proof {
        assert(pre =~= bytes@.take(p as int).push(45u8));
        assert(mid.take(p + 1) == pre);
        assert(all_ascii(out@)) by {
            assert forall|x: int| 0 <= x < out@.len() implies (#[trigger] out@[x]) < 128 by {
                if x < p + 1 {
                    assert(out@[x] == mid[x]);
                    assert(mid[x] == mid.take(p + 1)[x]);
                } else if x < mid.len() {
                    assert(out@[x] == mid[x]);
                } else {
                    assert(out@[x] == bytes@.subrange(p as int, n as int)[x - mid.len()]);
                }
            }
        }
    }
    let r = ascii_to_string(out);
    proof {
        let cand = candidate_spec(s, k as nat);
        let decs = dec_chars(k as nat);
        assert(mid.skip(p + 1).map_values(|b: u8| b as char) == decs);
        assert(r@ =~= cand) by {
            assert(r@.len() == cand.len());
            assert forall|x: int| 0 <= x < cand.len() implies r@[x] == cand[x] by {
                assert(r@[x] == out@[x] as char);
                if x < p {
                    assert(out@[x] == mid[x]);
                    assert(mid[x] == mid.take(p + 1)[x]);
                    assert(mid[x] == bytes@[x]);
                    assert(cand[x] == s.take(p as int)[x]);
                } else if x == p {
                    assert(out@[x] == mid[x]);
                    assert(mid[x] == mid.take(p + 1)[x]);
                    assert(mid[x] == 45u8);
                    assert(cand[x] == '-');
                } else if x < p + 1 + dlen {
                    assert(out@[x] == mid[x]);
                    assert(mid[x] as char == mid.skip(p + 1).map_values(|b: u8| b as char)[x - p
                        - 1]);
                    assert(cand[x] == decs[x - p - 1]);
                } else {
                    assert(out@[x] == bytes@.subrange(p as int, n as int)[x - mid.len()]);
                    assert(cand[x] == s.skip(p as int)[x - (p + 1 + dlen)]);
                    assert(s.skip(p as int)[x - (p + 1 + dlen)] == s[x - 1 - dlen]);
                }
            }
        }
    }
    r
}

/// `r` is the resolved name for sanitized name `safe` among `names`: free,
/// and either `safe` itself or the candidate with the least suffix whose
/// every predecessor is taken.
pub open spec fn resolved_fresh(names: Seq<Seq<char>>, safe: Seq<char>, r: Seq<char>) -> bool {
    &&& !names.contains(r)
    &&& (!names.contains(safe) ==> r == safe)
    &&& (names.contains(safe) ==> exists|k: nat|
        1 <= k && r == candidate_spec(safe, k) && (forall|j: nat|
            1 <= j < k ==> names.contains(#[trigger] candidate_spec(safe, j))))
}

/// Sanitize a proposed filename and resolve collisions: the sanitized name
/// itself when free, else the first candidate with an incrementing numeric
/// suffix inserted before the extension that no existing name matches.
pub fn fresh_name(proposed: &str, existing: &Vec<String>) -> (r: String)
    requires
        existing@.len() < u64::MAX - 1,
    ensures
        resolved_fresh(existing@.map_values(|s: String| s@), sanitize_spec(proposed@), r@),
{
    let ghost names = existing@.map_values(|s: String| s@);
    let bytes = sanitize_bytes(proposed);
    let ghost safe = sanitize_spec(proposed@);
    proof {
        assert(bytes@.map_values(|b: u8| b as char) =~= safe);
    }
    let first_bytes = sanitize_bytes(proposed);
    let first = ascii_to_string(first_bytes);
    proof {
        assert(first@ =~= safe);
    }
    if !name_taken(existing, &first) {
        return first;
    }
    let p = insert_pos(&bytes);
    let mut k: u64 = 1;
    let mut cand = build_candidate(&bytes, p, k);
    while name_taken(existing, &cand)
        invariant
            names == existing@.map_values(|s: String| s@),
            safe == sanitize_spec(proposed@),
            bytes@.map_values(|b: u8| b as char) == safe,
            all_ascii(bytes@),
            p <= bytes@.len(),
            p as int == insert_point(safe),
            existing@.len() < u64::MAX - 1,
            1 <= k <= existing@.len() + 1,
            names.contains(safe),
            cand@ == candidate_spec(safe, k as nat),
            forall|j: nat| 1 <= j < k ==> names.contains(#[trigger] candidate_spec(safe, j)),
        decreases existing@.len() + 1 - k,
    {
        proof {
            lemma_tried_bound(names, safe, k as nat);
        }
        k = k + 1;
        cand = build_candidate(&bytes, p, k);
    }
    proof {
        assert(1 <= k as nat && cand@ == candidate_spec(safe, k as nat) && (forall|j: nat|
            1 <= j < k as nat ==> names.contains(#[trigger] candidate_spec(safe, j))));
    }
    cand
}

} // verus!
