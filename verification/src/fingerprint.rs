//! Perceptual fingerprint engine.
//!
//! A fingerprint is an average hash: the image is downsampled to an 8 by 8
//! grid of luminance samples, each sample contributes one bit (set when the
//! sample is at least the mean), and the 64 bits are rendered as a fixed
//! 16-character lowercase hexadecimal string. The distance between two
//! fingerprints is the Hamming distance of the two 64-bit values; a string
//! that is not exactly 16 hexadecimal characters is malformed.

use vstd::prelude::*;
use crate::text::ascii_to_string;

verus! {

/// Internal-consistency failure of the fingerprint engine: an input that is
/// not a well-formed fingerprint string.
#[derive(Clone, Copy, Debug, PartialEq, Eq, Structural)]
pub enum HashError {
    MalformedHash,
}

/// How many of the low `n` bit positions of `x` hold a set bit.
pub open spec fn count_bits_upto(x: u64, n: nat) -> nat
    decreases n,
{
    if n == 0 {
        0
    } else {
        count_bits_upto(x, (n - 1) as nat) + (if (x >> (n - 1) as u64) & 1 == 1 {
            1nat
        } else {
            0nat
        })
    }
}

/// Hamming distance between two 64-bit values.
pub open spec fn hamming64(a: u64, b: u64) -> nat {
    count_bits_upto(a ^ b, 64)
}

/// Value of a single hexadecimal digit character, lower or upper case.
pub open spec fn hex_digit_value(c: char) -> Option<u64> {
    let n = c as u32;
    if 48 <= n && n <= 57 {
        Some((n - 48) as u64)
    } else if 97 <= n && n <= 102 {
        Some((n - 87) as u64)
    } else if 65 <= n && n <= 70 {
        Some((n - 55) as u64)
    } else {
        None
    }
}

pub open spec fn is_hex_char(c: char) -> bool {
    hex_digit_value(c) is Some
}

pub open spec fn all_hex(s: Seq<char>) -> bool {
    forall|i: int| 0 <= i < s.len() ==> is_hex_char(s[i])
}

/// Numeric value of the first `n` characters read as big-endian hex digits
/// (a character that is no hex digit counts as zero).
pub open spec fn hex_prefix_value(s: Seq<char>, n: nat) -> int
    decreases n,
{
    if n == 0 {
        0
    } else {
        hex_prefix_value(s, (n - 1) as nat) * 16 + (match hex_digit_value(s[n - 1]) {
            Some(d) => d as int,
            None => 0,
        })
    }
}

pub open spec fn pow16(n: nat) -> int
    decreases n,
{
    if n == 0 {
        1
    } else {
        16 * pow16((n - 1) as nat)
    }
}

/// A well-formed fingerprint string is exactly 16 hex digits; its value is
/// the 64-bit quantity those digits spell.
pub open spec fn parse_hash16(s: Seq<char>) -> Option<u64> {
    if s.len() == 16 && all_hex(s) {
        Some(hex_prefix_value(s, 16) as u64)
    } else {
        None
    }
}

/// What `hamming_hex` returns: the Hamming distance of the two spelled
/// values, or nothing when either string is malformed.
pub open spec fn hamming_hex_spec(a: Seq<char>, b: Seq<char>) -> Option<u32> {
    match (parse_hash16(a), parse_hash16(b)) {
        (Some(x), Some(y)) => Some(hamming64(x, y) as u32),
        _ => None,
    }
}

proof fn lemma_pow16_pos(n: nat)
    ensures
        pow16(n) >= 1,
    decreases n,
{
    if n > 0 {
        lemma_pow16_pos((n - 1) as nat);
    }
}

proof fn lemma_pow16_mono(a: nat, b: nat)
    requires
        a <= b,
    ensures
        1 <= pow16(a) <= pow16(b),
    decreases b,
{
    lemma_pow16_pos(a);
    if a < b {
        lemma_pow16_mono(a, (b - 1) as nat);
    }
}

proof fn lemma_hex_prefix_bound(s: Seq<char>, n: nat)
    ensures
        0 <= hex_prefix_value(s, n) < pow16(n),
    decreases n,
{
    if n > 0 {
        lemma_hex_prefix_bound(s, (n - 1) as nat);
        lemma_pow16_mono((n - 1) as nat, (n - 1) as nat);
    }
}

fn hex_digit_of(c: char) -> (r: Option<u64>)
    ensures
        r == hex_digit_value(c),
{
    let n = c as u32;
    if 48 <= n && n <= 57 {
        Some((n - 48) as u64)
    } else if 97 <= n && n <= 102 {
        Some((n - 87) as u64)
    } else if 65 <= n && n <= 70 {
        Some((n - 55) as u64)
    } else {
        None
    }
}

/// Parse a 16-hex-digit string into its 64-bit value; `None` when the string
/// is not exactly 16 hexadecimal characters.
pub fn parse_hex16(s: &str) -> (r: Option<u64>)
    ensures
        r == parse_hash16(s@),
{
    let len = s.unicode_len();
    if len != 16 {
        return None;
    }
    let mut acc: u64 = 0;
    let mut i: usize = 0;
    while i < 16
        invariant
            s@.len() == 16,
            i <= 16,
            forall|j: int| 0 <= j < i ==> is_hex_char(s@[j]),
            acc as int == hex_prefix_value(s@, i as nat),
        decreases 16 - i,
    {
        let c = s.get_char(i);
        match hex_digit_of(c) {
            Some(d) => {
                proof {
                    lemma_hex_prefix_bound(s@, i as nat);
                    lemma_pow16_mono(i as nat, 15);
                    reveal_with_fuel(pow16, 16);
                    assert(pow16(15) == 0x1000_0000_0000_0000);
                }
                acc = acc * 16 + d;
                i = i + 1;
            },
            None => {
                assert(!is_hex_char(s@[i as int]));
                return None;
            },
        }
    }
    proof {
        lemma_hex_prefix_bound(s@, 16);
        reveal_with_fuel(pow16, 17);
        assert(pow16(16) == 0x1_0000_0000_0000_0000);
        assert(all_hex(s@));
        assert(hex_prefix_value(s@, 16) as u64 == acc);
    }
    Some(acc)
}

/// Count the set bits of a 64-bit value.
fn popcount64(x: u64) -> (c: u32)
    ensures
        c == count_bits_upto(x, 64),
        c <= 64,
{
    let mut c: u32 = 0;
    let mut i: u64 = 0;
    while i < 64
        invariant
            i <= 64,
            c == count_bits_upto(x, i as nat),
            c <= i,
        decreases 64 - i,
    {
        if (x >> i) & 1 == 1 {
            c = c + 1;
        }
        i = i + 1;
    }
    c
}

/// Hamming distance between two fingerprints given as hex strings; `None`
/// when either is not exactly 16 hexadecimal characters.
pub fn hamming_hex(a_hex: &str, b_hex: &str) -> (r: Option<u32>)
    ensures
        r == hamming_hex_spec(a_hex@, b_hex@),
{
    let a = match parse_hex16(a_hex) {
        Some(v) => v,
        None => {
            return None;
        },
    };
    let b = match parse_hex16(b_hex) {
        Some(v) => v,
        None => {
            return None;
        },
    };
    let c = popcount64(a ^ b);
    proof {
        assert(hamming64(a, b) <= 64);
        assert(hamming64(a, b) as u32 == c);
    }
    Some(c)
}

/// Hamming distance between two fingerprints, with the malformed case made
/// an explicit error: a string that is not exactly 16 hex digits signals
/// `MalformedHash`.
pub fn distance(a_hex: &str, b_hex: &str) -> (r: Result<u32, HashError>)
    ensures
        r is Ok <==> parse_hash16(a_hex@) is Some && parse_hash16(b_hex@) is Some,
        r is Ok ==> Some(r->Ok_0) == hamming_hex_spec(a_hex@, b_hex@),
        r is Err ==> r->Err_0 == HashError::MalformedHash,
{
    match hamming_hex(a_hex, b_hex) {
        Some(d) => Ok(d),
        None => Err(HashError::MalformedHash),
    }
}

/// Sum of the first `n` samples.
pub open spec fn sum_upto(s: Seq<u8>, n: nat) -> int
    decreases n,
{
    if n == 0 {
        0
    } else {
        sum_upto(s, (n - 1) as nat) + s[n - 1]
    }
}

proof fn lemma_sum_bound(s: Seq<u8>, n: nat)
    ensures
        0 <= sum_upto(s, n) <= 255 * n,
    decreases n,
{
    if n > 0 {
        lemma_sum_bound(s, (n - 1) as nat);
    }
}

/// Mean of the 64 luminance samples, rounded down.
pub open spec fn mean64(s: Seq<u8>) -> u8 {
    (sum_upto(s, 64) / 64) as u8
}

/// The low `n` bits of the hash: bit `i` is set when sample `i` is at least
/// the mean.
pub open spec fn pack_upto(s: Seq<u8>, avg: u8, n: nat) -> u64
    decreases n,
{
    if n == 0 {
        0u64
    } else if s[n - 1] >= avg {
        pack_upto(s, avg, (n - 1) as nat) | (1u64 << (n - 1) as u64)
    } else {
        pack_upto(s, avg, (n - 1) as nat)
    }
}

/// The 64-bit average hash of an 8 by 8 grid of luminance samples.
pub open spec fn ahash_bits(s: Seq<u8>) -> u64 {
    pack_upto(s, mean64(s), 64)
}

/// Hexadecimal digit character of a value below 16, lowercase.
pub open spec fn hex_char_of(d: u64) -> char {
    if d == 0 {
        '0'
    } else if d == 1 {
        '1'
    } else if d == 2 {
        '2'
    } else if d == 3 {
        '3'
    } else if d == 4 {
        '4'
    } else if d == 5 {
        '5'
    } else if d == 6 {
        '6'
    } else if d == 7 {
        '7'
    } else if d == 8 {
        '8'
    } else if d == 9 {
        '9'
    } else if d == 10 {
        'a'
    } else if d == 11 {
        'b'
    } else if d == 12 {
        'c'
    } else if d == 13 {
        'd'
    } else if d == 14 {
        'e'
    } else {
        'f'
    }
}

/// Hex digit `i` of the rendered hash: the four bits starting at position
/// `60 - 4 * i`, most significant digit first.
pub open spec fn nibble(bits: u64, i: int) -> u64 {
    (bits >> ((15 - i) * 4) as u64) & 0xf
}

/// The fixed-width, 16-character lowercase hexadecimal rendering of a 64-bit
/// hash value.
pub open spec fn hex16_of(bits: u64) -> Seq<char> {
    Seq::new(16, |i: int| hex_char_of(nibble(bits, i)))
}

/// The fingerprint string of a decoded image, as a function of its 8 by 8
/// luminance samples.
pub open spec fn fingerprint_of_samples(s: Seq<u8>) -> Seq<char> {
    hex16_of(ahash_bits(s))
}

/// What `fingerprint` returns on an image that decodes: the rendered average
/// hash of its luminance samples.
pub open spec fn fingerprint_spec(bytes: Seq<u8>) -> Seq<char> {
    fingerprint_of_samples(luma_8x8_of(bytes).unwrap())
}

/// The 8 by 8 grid of luminance samples of the image a byte sequence
/// encodes, or nothing when the bytes are no decodable image. Decoding and
/// downsampling are deterministic in the bytes.
pub uninterp spec fn luma_8x8_of(bytes: Seq<u8>) -> Option<Seq<u8>>;

/// Relies on `image::load_from_memory`, `DynamicImage::resize_exact(8, 8,
/// Nearest)` and `to_luma8`: decoding succeeds or fails as a function of the
/// bytes alone, and downsampling to an exact 8 by 8 grid yields exactly 64
/// one-byte luminance samples, again a function of the bytes alone.
#[verifier::external_body]
fn luma_8x8(bytes: &Vec<u8>) -> (r: Option<Vec<u8>>)
    ensures
        r is Some <==> luma_8x8_of(bytes@) is Some,
        r matches Some(v) ==> v@ == luma_8x8_of(bytes@).unwrap() && v@.len() == 64,
{
    let img = match image::load_from_memory(bytes) {
        Ok(i) => i,
        Err(_) => return None,
    };
    let small = img.resize_exact(8, 8, image::imageops::FilterType::Nearest).to_luma8();
    Some(small.pixels().map(|p| p[0]).collect())
}

fn hex_ascii_of(d: u64) -> (r: u8)
    requires
        d < 16,
    ensures
        r < 128,
        r as char == hex_char_of(d),
{
    if d < 10 {
        48 + (d as u8)
    } else {
        87 + (d as u8)
    }
}

/// Render a 64-bit hash as its fixed 16-character lowercase hex string.
pub fn render_hex16(bits: u64) -> (s: String)
    ensures
        s@ == hex16_of(bits),
{
    let mut out: Vec<u8> = Vec::new();
    let mut i: usize = 0;
    while i < 16
        invariant
            i <= 16,
            out@.len() == i,
            forall|j: int| 0 <= j < i ==> (#[trigger] out@[j]) < 128 && out@[j] as char == hex16_of(bits)[j],
        decreases 16 - i,
    {
        let shift: u64 = (15 - i as u64) * 4;
        let d: u64 = (bits >> shift) & 0xf;
        proof {
            assert((bits >> shift) & 0xf < 16) by (bit_vector);
            assert(d == nibble(bits, i as int));
        }
        let ch = hex_ascii_of(d);
        out.push(ch);
        proof {
            assert(out@[i as int] == ch);
            assert(hex16_of(bits)[i as int] == hex_char_of(nibble(bits, i as int)));
        }
        i = i + 1;
    }
    let s = ascii_to_string(out);
    proof {
        assert(s@ =~= hex16_of(bits));
    }
    s
}

/// The 64-bit average hash of exactly 64 luminance samples.
fn ahash64(samples: &Vec<u8>) -> (bits: u64)
    requires
        samples@.len() == 64,
    ensures
        bits == ahash_bits(samples@),
{
    let mut sum: u32 = 0;
    let mut i: usize = 0;
    while i < 64
        invariant
            samples@.len() == 64,
            i <= 64,
            sum == sum_upto(samples@, i as nat),
            sum <= 255 * i,
        decreases 64 - i,
    {
        sum = sum + samples[i] as u32;
        i = i + 1;
    }
    let avg: u8 = (sum / 64) as u8;
    proof {
        lemma_sum_bound(samples@, 64);
        assert(avg == mean64(samples@));
    }
    let mut bits: u64 = 0;
    let mut j: usize = 0;
    while j < 64
        invariant
            samples@.len() == 64,
            j <= 64,
            avg == mean64(samples@),
            bits == pack_upto(samples@, avg, j as nat),
        decreases 64 - j,
    {
        if samples[j] >= avg {
            bits = bits | (1u64 << (j as u64));
        }
        j = j + 1;
    }
    bits
}

/// Compute the perceptual fingerprint of an encoded image: `None` when the
/// bytes do not decode as an image, else the 16-hex-digit average hash of
/// the decoded pixels.
pub fn fingerprint(bytes: &Vec<u8>) -> (r: Option<String>)
    ensures
        r is Some <==> luma_8x8_of(bytes@) is Some,
        r matches Some(s) ==> s@ == fingerprint_spec(bytes@),
{
    let samples = match luma_8x8(bytes) {
        Some(v) => v,
        None => {
            return None;
        },
    };
    let bits = ahash64(&samples);
    Some(render_hex16(bits))
}

proof fn lemma_count_bits_zero(n: nat)
    ensures
        count_bits_upto(0, n) == 0,
    decreases n,
{
    if n > 0 {
        lemma_count_bits_zero((n - 1) as nat);
        let m = (n - 1) as u64;
        assert((0u64 >> m) & 1 == 0) by (bit_vector);
    }
}

proof fn lemma_hex_char_is_hex(d: u64)
    requires
        d < 16,
    ensures
        is_hex_char(hex_char_of(d)),
        hex_digit_value(hex_char_of(d)) == Some(d),
{
}

/// A rendered hash is well formed: it parses back as a fingerprint.
pub proof fn lemma_hex16_wellformed(bits: u64)
    ensures
        parse_hash16(hex16_of(bits)) is Some,
{
    let h = hex16_of(bits);
    assert forall|i: int| 0 <= i < h.len() implies is_hex_char(h[i]) by {
        let sh = ((15 - i) * 4) as u64;
        assert((bits >> sh) & 0xf < 16) by (bit_vector);
        lemma_hex_char_is_hex(nibble(bits, i));
    }
}

/// Law: the distance from any well-formed fingerprint to itself is zero.
pub proof fn lemma_self_distance_zero(h: Seq<char>)
    requires
        parse_hash16(h) is Some,
    ensures
        hamming_hex_spec(h, h) == Some(0u32),
{
    let x = parse_hash16(h).unwrap();
    assert(x ^ x == 0) by (bit_vector);
    lemma_count_bits_zero(64);
}

/// Law: two identical images carry identical fingerprints, and the distance
/// between those fingerprints is zero.
pub proof fn lemma_identical_images_distance_zero(bytes: Seq<u8>)
    requires
        luma_8x8_of(bytes) is Some,
    ensures
        hamming_hex_spec(fingerprint_spec(bytes), fingerprint_spec(bytes)) == Some(0u32),
{
    lemma_hex16_wellformed(ahash_bits(luma_8x8_of(bytes).unwrap()));
    lemma_self_distance_zero(fingerprint_spec(bytes));
}

/// Law: two hashes of unequal length never yield a distance; `distance`
/// signals `MalformedHash` on them.
pub proof fn lemma_length_mismatch_malformed(a: Seq<char>, b: Seq<char>)
    requires
        a.len() != b.len(),
    ensures
        hamming_hex_spec(a, b) is None,
{
}

} // verus!
