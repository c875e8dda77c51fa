//! Digest headers: their format, the supported algorithms and the decision
//! whether a digest header agrees with given data.
//!
//! A digest header has the form `algorithm:base64digest`.

use base64::Engine;
use base64::engine::general_purpose::STANDARD;
use crate::ascii::bytes_equal;
use crate::ascii::find_byte;
use crate::ascii::position;
use crate::error::WarcError;
use md5::Md5;
use sha1::Digest;
use sha1::Sha1;
use vstd::prelude::*;
use vstd::slice::slice_subrange;
use vstd::string::StringSliceAdditionalSpecFns;

verus! {

/// The SHA-1 digest of `data`.
pub uninterp spec fn sha1_digest(data: Seq<u8>) -> Seq<u8>;

/// The MD5 digest of `data`.
pub uninterp spec fn md5_digest(data: Seq<u8>) -> Seq<u8>;

/// The padded base64 text of `bytes` in the standard alphabet.
pub uninterp spec fn base64_text(bytes: Seq<u8>) -> Seq<u8>;

/// `sha1`'s `Sha1::digest`: the 20 bytes of the digest, a function of the data.
#[verifier::external_body]
fn sha1_of(data: &[u8]) -> (digest: Vec<u8>)
    ensures
        digest@ == sha1_digest(data@),
        digest@.len() == 20,
{
    Sha1::digest(data).to_vec()
}

/// `md-5`'s `Md5::digest`: the 16 bytes of the digest, a function of the data.
#[verifier::external_body]
fn md5_of(data: &[u8]) -> (digest: Vec<u8>)
    ensures
        digest@ == md5_digest(data@),
        digest@.len() == 16,
{
    Md5::digest(data).to_vec()
}

/// `base64`'s `STANDARD.encode`: the encoded text, a function of the bytes.
/// The length of the input is bounded so that the length of the text fits.
#[verifier::external_body]
fn base64_of(bytes: &[u8]) -> (text: Vec<u8>)
    requires
        bytes@.len() <= usize::MAX / 2,
    ensures
        text@ == base64_text(bytes@),
{
    STANDARD.encode(bytes).into_bytes()
}

/// Which part of a record a digest covers.
#[derive(Debug, Clone, Copy, PartialEq, Eq, Structural)]
pub enum DigestType {
    /// The whole record body.
    Block,
    /// The record body without an embedded HTTP header block.
    Payload,
}

/// A supported hash algorithm.
#[derive(Debug, Clone, Copy, PartialEq, Eq, Structural)]
pub enum DigestAlgorithm {
    Sha1,
    Md5,
}

/// The two parts of a digest header, where it has exactly one colon.
pub open spec fn digest_parts(header: Seq<u8>) -> Option<(Seq<u8>, Seq<u8>)> {
    let colon = position(header, 0x3A, 0);
    if colon < header.len() && position(header, 0x3A, colon + 1) >= header.len() {
        Some((header.subrange(0, colon), header.subrange(colon + 1, header.len() as int)))
    } else {
        None
    }
}

/// The algorithm with the given name; names are case-sensitive.
pub open spec fn algorithm_named(name: Seq<u8>) -> Option<DigestAlgorithm> {
    if name == "sha1".spec_bytes() {
        Some(DigestAlgorithm::Sha1)
    } else if name == "md5".spec_bytes() {
        Some(DigestAlgorithm::Md5)
    } else {
        None
    }
}

/// The base64 text of the digest of `data`.
pub open spec fn encoded_digest(algorithm: DigestAlgorithm, data: Seq<u8>) -> Seq<u8> {
    match algorithm {
        DigestAlgorithm::Sha1 => base64_text(sha1_digest(data)),
        DigestAlgorithm::Md5 => base64_text(md5_digest(data)),
    }
}

/// What a digest header says of data: a header that does not consist of two
/// parts never agrees; an unknown algorithm is an error; otherwise the header
/// agrees exactly when its second part is the encoded digest of the data.
pub open spec fn digest_verdict(header: Seq<u8>, data: Seq<u8>) -> Result<bool, WarcError> {
    match digest_parts(header) {
        None => Ok(false),
        Some(parts) => match algorithm_named(parts.0) {
            None => Err(WarcError::UnsupportedAlgorithm),
            Some(algorithm) => Ok(parts.1 == encoded_digest(algorithm, data)),
        },
    }
}

/// Splits a digest header at its colon.
pub fn split_digest(header: &[u8]) -> (parts: Option<(&[u8], &[u8])>)
    ensures
        match parts {
            Some(p) => digest_parts(header@) == Some((p.0@, p.1@)),
            None => digest_parts(header@) is None,
        },
{
    let colon: usize = find_byte(header, 0x3A, 0);
    if colon >= header.len() {
        return None;
    }
    if find_byte(header, 0x3A, colon + 1) < header.len() {
        return None;
    }
    Some((slice_subrange(header, 0, colon), slice_subrange(header, colon + 1, header.len())))
}

impl DigestAlgorithm {
    /// The algorithm with the given name.
    pub fn from_name(name: &[u8]) -> (algorithm: Result<DigestAlgorithm, WarcError>)
        ensures
            algorithm == match algorithm_named(name@) {
                Some(a) => Ok::<DigestAlgorithm, WarcError>(a),
                None => Err(WarcError::UnsupportedAlgorithm),
            },
    {
        if bytes_equal(name, "sha1".as_bytes()) {
            Ok(DigestAlgorithm::Sha1)
        } else if bytes_equal(name, "md5".as_bytes()) {
            Ok(DigestAlgorithm::Md5)
        } else {
            Err(WarcError::UnsupportedAlgorithm)
        }
    }

    /// The base64 text of the digest of `data`.
    pub fn digest(&self, data: &[u8]) -> (text: Vec<u8>)
        ensures
            text@ == encoded_digest(*self, data@),
    {
        match self {
            DigestAlgorithm::Sha1 => {
                let raw = sha1_of(data);
                base64_of(raw.as_slice())
            },
            DigestAlgorithm::Md5 => {
                let raw = md5_of(data);
                base64_of(raw.as_slice())
            },
        }
    }
}

/// Whether a digest that was computed agrees with the one that a header
/// expects; the comparison is case-sensitive.
pub fn digest_matches(expected: &[u8], computed: &[u8]) -> (agrees: bool)
    ensures
        agrees == (expected@ == computed@),
{
    bytes_equal(expected, computed)
}

/// Checks `data` against a digest header.
pub fn verify_digest_of(header: &[u8], data: &[u8]) -> (verdict: Result<bool, WarcError>)
    ensures
        verdict == digest_verdict(header@, data@),
{
    match split_digest(header) {
        None => Ok(false),
        Some(parts) => match DigestAlgorithm::from_name(parts.0) {
            Err(e) => Err(e),
            Ok(algorithm) => {
                let computed = algorithm.digest(data);
                Ok(digest_matches(parts.1, computed.as_slice()))
            },
        },
    }
}

} // verus!
