//! Verified core of an image-identification quiz service.
//!
//! The library covers the parts of the service where correctness matters:
//! the perceptual fingerprint engine and its Hamming-distance metric, the
//! asset index with its unique-filename invariant, the ingestion pipeline
//! (filename sanitation, collision-free renaming, fingerprinting), the quiz
//! session store with TTL-based sweeping, the quiz composer, and the
//! procedural placeholder renderer. HTTP wiring, file and network I/O and
//! serialization live outside the library and hand it plain values.

pub mod text;
pub mod fingerprint;
pub mod index;
pub mod names;
pub mod ingest;
pub mod session;
pub mod compose;
pub mod questions;
pub mod render;

use vstd::prelude::*;

verus! {

/// Does a presented admin token match the expected one exactly? Admin-only
/// operations are denied when it does not.
pub fn token_matches(token: &String, expected: &String) -> (r: bool)
    ensures
        r == (token@ == expected@),
{
    *token == *expected
}

} // verus!
