//! The ingestion pipeline.
//!
//! An upload is a suggested filename and raw bytes (handed over directly, or
//! base64-encoded inside a JSON envelope). The pipeline rejects filenames
//! holding path separators, sanitizes the name, validates that the bytes
//! decode as an image, resolves filename collisions with a numeric suffix,
//! derives a thumbnail, computes the perceptual fingerprint, and upserts the
//! record into the asset index. The caller persists the returned original
//! and thumbnail bytes and the updated catalog; any failure leaves the index
//! as it was.

use vstd::prelude::*;
use base64::Engine;
use crate::fingerprint::{fingerprint, fingerprint_spec, luma_8x8_of};
use crate::text::copy_bytes;
use crate::index::{contains_name, upsert_spec, AssetIndex, AssetRecord, RecordView};
use crate::names::{fresh_name, has_path_separator, has_separator, resolved_fresh, sanitize_spec};

verus! {

/// Why an upload was rejected. Failures of persistence happen outside the
/// pipeline, at the caller, after the pipeline has succeeded.
#[derive(Clone, Copy, Debug, PartialEq, Eq, Structural)]
pub enum IngestError {
    /// The suggested filename holds a path separator.
    UnsafeFilename,
    /// The envelope's payload is not well-formed base64.
    InvalidBase64,
    /// The bytes do not decode as an image.
    InvalidImageData,
}

/// What a successful ingestion hands back: the new catalog record, the raw
/// bytes to persist under the resolved name, and the encoded thumbnail to
/// persist beside them.
pub struct IngestOutcome {
    pub record: AssetRecord,
    pub original: Vec<u8>,
    pub thumb_png: Vec<u8>,
}

/// The PNG encoding of the 320 by 240 (aspect-preserving) thumbnail of the
/// image a byte sequence encodes, or nothing when the bytes are no decodable
/// image. Decoding, downscaling and PNG encoding are deterministic in the
/// bytes.
pub uninterp spec fn thumbnail_png_of(bytes: Seq<u8>) -> Option<Seq<u8>>;

/// Relies on `image::load_from_memory`, `DynamicImage::thumbnail(320, 240)`,
/// `to_rgba8` and PNG encoding through `DynamicImage::write_to`: each is a
/// deterministic function of the input bytes, and decoding succeeds or fails
/// on the bytes alone.
#[verifier::external_body]
fn thumbnail_png(bytes: &Vec<u8>) -> (r: Option<Vec<u8>>)
    ensures
        r is Some <==> thumbnail_png_of(bytes@) is Some,
        r matches Some(v) ==> v@ == thumbnail_png_of(bytes@).unwrap(),
{
    let img = match image::load_from_memory(bytes) {
        Ok(i) => i,
        Err(_) => return None,
    };
    let thumb = image::DynamicImage::ImageRgba8(img.thumbnail(320, 240).to_rgba8());
    let mut png: Vec<u8> = Vec::new();
    match thumb.write_to(&mut std::io::Cursor::new(&mut png), image::ImageOutputFormat::Png) {
        Ok(()) => Some(png),
        Err(_) => None,
    }
}

/// The bytes a base64 payload spells after trimming surrounding whitespace,
/// or nothing when it is not well-formed base64 of the standard alphabet.
/// Decoding is deterministic in the characters.
pub uninterp spec fn base64_decoded(s: Seq<char>) -> Option<Seq<u8>>;

/// Relies on `str::trim` and the standard-alphabet engine of the base64
/// crate: trimming and decoding are deterministic functions of the
/// characters, and decoding succeeds exactly on well-formed base64.
#[verifier::external_body]
fn base64_decode(s: &str) -> (r: Option<Vec<u8>>)
    ensures
        r is Some <==> base64_decoded(s@) is Some,
        r matches Some(v) ==> v@ == base64_decoded(s@).unwrap(),
{
    match base64::engine::general_purpose::STANDARD.decode(s.trim()) {
        Ok(v) => Some(v),
        Err(_) => None,
    }
}

/// `rec` is the record a successful ingestion of `bytes` under `suggested`
/// writes, given the filenames that were already taken.
pub open spec fn ingested_record(
    pre: Seq<RecordView>,
    bytes: Seq<u8>,
    suggested: Seq<char>,
    uploaded_at: Seq<char>,
    rec: RecordView,
) -> bool {
    &&& resolved_fresh(
        pre.map_values(|rv: RecordView| rv.filename),
        sanitize_spec(suggested),
        rec.filename,
    )
    &&& rec.size == bytes.len()
    &&& rec.thumb == true
    &&& rec.phash == Some(fingerprint_spec(bytes))
    &&& rec.uploaded_at == uploaded_at
}

/// Ingest one upload: validate, deduplicate by name, fingerprint, and upsert
/// the record into the index. On any error the index is left as it was; on
/// success the returned thumbnail and the caller's copy of the original
/// bytes are to be persisted, and the index holds exactly one record under
/// the resolved name.
pub fn ingest(
    index: &mut AssetIndex,
    bytes: &Vec<u8>,
    suggested: &str,
    uploaded_at: String,
) -> (r: Result<IngestOutcome, IngestError>)
    requires
        old(index).wf(),
        old(index)@.len() < u64::MAX - 1,
    ensures
        final(index).wf(),
        r is Err ==> final(index)@ == old(index)@,
        r == Err::<IngestOutcome, IngestError>(IngestError::UnsafeFilename) <==> has_separator(
            suggested@,
        ),
        !has_separator(suggested@) ==> (r == Err::<IngestOutcome, IngestError>(
            IngestError::InvalidImageData,
        ) <==> luma_8x8_of(bytes@) is None || thumbnail_png_of(bytes@) is None),
        r is Ok <==> !has_separator(suggested@) && luma_8x8_of(bytes@) is Some
            && thumbnail_png_of(bytes@) is Some,
        r matches Ok(out) ==> ingested_record(
            old(index)@,
            bytes@,
            suggested@,
            uploaded_at@,
            out.record@,
        ) && !contains_name(old(index)@, out.record@.filename) && final(index)@ == upsert_spec(
            old(index)@,
            out.record@,
        ) && out.thumb_png@ == thumbnail_png_of(bytes@).unwrap() && out.original@ == bytes@,
{
    if has_path_separator(suggested) {
        return Err(IngestError::UnsafeFilename);
    }
    let phash = match fingerprint(bytes) {
        Some(h) => h,
        None => {
            return Err(IngestError::InvalidImageData);
        },
    };
    let thumb = match thumbnail_png(bytes) {
        Some(t) => t,
        None => {
            return Err(IngestError::InvalidImageData);
        },
    };
    let names = index.filenames();
    let resolved = fresh_name(suggested, &names);
    let record = AssetRecord {
        filename: resolved,
        size: bytes.len() as u64,
        thumb: true,
        phash: Some(phash),
        uploaded_at,
    };
    let out_record = record.duplicate();
    proof {
        let pre = old(index)@;
        let namev = names@.map_values(|s: String| s@);
        assert(namev == pre.map_values(|rv: RecordView| rv.filename));
        assert(!contains_name(pre, record@.filename)) by {
            if contains_name(pre, record@.filename) {
                let i = choose|i: int|
                    0 <= i < pre.len() && (#[trigger] pre[i]).filename == record@.filename;
                assert(namev[i] == record@.filename);
                assert(namev.contains(record@.filename));
            }
        }
    }
    index.upsert(record);
    Ok(IngestOutcome { record: out_record, original: copy_bytes(bytes), thumb_png: thumb })
}

/// Ingest an upload delivered as a JSON envelope: the payload is base64 text
/// that spells the raw bytes. A payload that is not well-formed base64 is
/// rejected before any decoding of image data.
pub fn ingest_from_base64(
    index: &mut AssetIndex,
    b64: &str,
    suggested: &str,
    uploaded_at: String,
) -> (r: Result<IngestOutcome, IngestError>)
    requires
        old(index).wf(),
        old(index)@.len() < u64::MAX - 1,
    ensures
        final(index).wf(),
        r is Err ==> final(index)@ == old(index)@,
        r == Err::<IngestOutcome, IngestError>(IngestError::UnsafeFilename) <==> has_separator(
            suggested@,
        ),
        !has_separator(suggested@) ==> (r == Err::<IngestOutcome, IngestError>(
            IngestError::InvalidBase64,
        ) <==> base64_decoded(b64@) is None),
        !has_separator(suggested@) && base64_decoded(b64@) is Some ==> (r == Err::<
            IngestOutcome,
            IngestError,
        >(IngestError::InvalidImageData) <==> luma_8x8_of(base64_decoded(b64@).unwrap()) is None
            || thumbnail_png_of(base64_decoded(b64@).unwrap()) is None),
        r matches Ok(out) ==> base64_decoded(b64@) matches Some(bytes) && ingested_record(
            old(index)@,
            bytes,
            suggested@,
            uploaded_at@,
            out.record@,
        ) && !contains_name(old(index)@, out.record@.filename) && final(index)@ == upsert_spec(
            old(index)@,
            out.record@,
        ) && out.thumb_png@ == thumbnail_png_of(bytes).unwrap() && out.original@ == bytes,
{
    if has_path_separator(suggested) {
        return Err(IngestError::UnsafeFilename);
    }
    let bytes = match base64_decode(b64) {
        Some(v) => v,
        None => {
            return Err(IngestError::InvalidBase64);
        },
    };
    ingest(index, &bytes, suggested, uploaded_at)
}

} // verus!
