//! End-to-end verification: compare a downloaded copy against the
//! original by size and SHA-256 checksum.

use crate::text::lower_hex;
use crate::text::spec_lower;
use crate::text::spec_lower_hex;
use crate::text::str_eq;
use crate::text::to_ascii_lowercase;
use vstd::prelude::*;

verus! {

/// The SHA-256 digest of a byte sequence; a function of the bytes alone.
pub uninterp spec fn sha256_of(bytes: Seq<u8>) -> Seq<u8>;

/// Relies on `sha2::Sha256` through `sha2::Digest::digest`: the 32-byte
/// SHA-256 digest of the input, a function of the bytes alone, named by
/// `sha256_of`.
#[verifier::external_body]
fn sha256_digest(data: &[u8]) -> (r: Vec<u8>)
    ensures
        r@ == sha256_of(data@),
        r@.len() == 32,
{
    <sha2::Sha256 as sha2::Digest>::digest(data).to_vec()
}

/// The SHA-256 checksum of `data` as lower-case hex text.
pub fn compute_sha256(data: &[u8]) -> (r: String)
    ensures
        r@ == spec_lower_hex(sha256_of(data@)),
{
    let digest = sha256_digest(data);
    lower_hex(digest.as_slice())
}

/// The outcome of comparing a downloaded copy against its original.
pub struct VerificationResult {
    pub passed: bool,
    pub original_size: u64,
    pub downloaded_size: u64,
    pub original_checksum: String,
    pub downloaded_checksum: String,
}

/// Compare `downloaded` against `original`: sizes must agree and the
/// SHA-256 checksums must agree after lowercasing.
pub fn verify(original: &[u8], downloaded: &[u8]) -> (r: VerificationResult)
    ensures
        r.original_size == original@.len(),
        r.downloaded_size == downloaded@.len(),
        r.original_checksum@ == spec_lower_hex(sha256_of(original@)),
        r.downloaded_checksum@ == spec_lower_hex(sha256_of(downloaded@)),
        r.passed == (original@.len() == downloaded@.len() && spec_lower(
            spec_lower_hex(sha256_of(original@)),
        ) == spec_lower(spec_lower_hex(sha256_of(downloaded@)))),
{
    let original_size = original.len() as u64;
    let downloaded_size = downloaded.len() as u64;
    let original_checksum = compute_sha256(original);
    let downloaded_checksum = compute_sha256(downloaded);
    let original_lower = to_ascii_lowercase(original_checksum.as_str());
    let downloaded_lower = to_ascii_lowercase(downloaded_checksum.as_str());
    let passed = original_size == downloaded_size && str_eq(
        original_lower.as_str(),
        downloaded_lower.as_str(),
    );
    VerificationResult {
        passed,
        original_size,
        downloaded_size,
        original_checksum,
        downloaded_checksum,
    }
}

} // verus!
