//! The checksum model — an algorithm tag coupled with a hex digest — and
//! verification of downloaded bytes against it.

use vstd::prelude::*;

use crate::error::ResolveError;
use crate::strutil::{
    eq_ignore_case, is_hex_digit, lower_code, str_eq_ignore_case,
};

verus! {

/// Supported checksum algorithms.
#[derive(Debug, Clone, Copy, PartialEq, Eq, Structural)]
pub enum ChecksumKind {
    Sha256,
    Sha512,
}

/// Number of hex characters in a digest of each algorithm.
pub open spec fn digest_hex_len(kind: ChecksumKind) -> nat {
    match kind {
        ChecksumKind::Sha256 => 64,
        ChecksumKind::Sha512 => 128,
    }
}

impl ChecksumKind {
    /// The lowercase tag under which the algorithm is reported.
    pub fn as_str(&self) -> (r: &'static str)
        ensures
            *self == ChecksumKind::Sha256 ==> r@ == "sha256"@,
            *self == ChecksumKind::Sha512 ==> r@ == "sha512"@,
    {
        match self {
            ChecksumKind::Sha256 => "sha256",
            ChecksumKind::Sha512 => "sha512",
        }
    }
}

/// Ghost-level picture of an [`ImageChecksum`]: the algorithm tag and the
/// characters of the digest.
pub struct ChecksumModel {
    pub kind: ChecksumKind,
    pub value: Seq<char>,
}

/// Couples a hex digest with the algorithm that produced it.
#[derive(Debug, Clone)]
pub struct ImageChecksum {
    kind: ChecksumKind,
    value: String,
}

impl View for ImageChecksum {
    type V = ChecksumModel;

    closed spec fn view(&self) -> ChecksumModel {
        ChecksumModel { kind: self.kind, value: self.value@ }
    }
}

/// A digest value fits its algorithm: the right number of characters, all
/// hex digits.
pub open spec fn checksum_wf(m: ChecksumModel) -> bool {
    &&& m.value.len() == digest_hex_len(m.kind)
    &&& forall|i: int| 0 <= i < m.value.len() ==> is_hex_digit(#[trigger] m.value[i])
}

impl ImageChecksum {
    pub fn new(kind: ChecksumKind, value: String) -> (r: Self)
        ensures
            r@.kind == kind,
            r@.value == value@,
    {
        ImageChecksum { kind, value }
    }

    pub fn kind(&self) -> (r: ChecksumKind)
        ensures
            r == self@.kind,
    {
        self.kind
    }

    pub fn value(&self) -> (r: &str)
        ensures
            r@ == self@.value,
    {
        self.value.as_str()
    }
}

// ---------------------------------------------------------------------------
// Hex encoding and digest computation
// ---------------------------------------------------------------------------

/// The lowercase hex character for a value below 16.
pub open spec fn hex_digit_char(v: int) -> char {
    if v == 0 { '0' } else if v == 1 { '1' } else if v == 2 { '2' } else if v == 3 { '3' }
    else if v == 4 { '4' } else if v == 5 { '5' } else if v == 6 { '6' } else if v == 7 { '7' }
    else if v == 8 { '8' } else if v == 9 { '9' } else if v == 10 { 'a' } else if v == 11 { 'b' }
    else if v == 12 { 'c' } else if v == 13 { 'd' } else if v == 14 { 'e' } else { 'f' }
}

/// Lowercase hex rendering of a byte string: two digits per byte, most
/// significant first.
pub open spec fn hex_of_bytes(bytes: Seq<u8>) -> Seq<char>
    decreases bytes.len(),
{
    if bytes.len() == 0 {
        Seq::<char>::empty()
    } else {
        hex_of_bytes(bytes.drop_last()) + seq![
            hex_digit_char(bytes.last() as int / 16),
            hex_digit_char(bytes.last() as int % 16),
        ]
    }
}

/// Relies on `hex::encode`: it renders each input byte as two lowercase
/// hex digits, most significant digit first, in input order.
#[verifier::external_body]
fn hex_encode(bytes: &[u8]) -> (r: String)
    ensures
        r@ == hex_of_bytes(bytes@),
{
    hex::encode(bytes)
}

/// The SHA-256 digest of a byte string, named but not defined: the
/// algorithm is supplied by the `sha2` crate.
pub uninterp spec fn sha256_of(bytes: Seq<u8>) -> Seq<u8>;

/// The SHA-512 digest of a byte string, named but not defined: the
/// algorithm is supplied by the `sha2` crate.
pub uninterp spec fn sha512_of(bytes: Seq<u8>) -> Seq<u8>;

/// Relies on `sha2::Sha256` through the one-shot `Digest::digest`: the
/// digest depends on the input bytes alone and is 32 bytes long.
#[verifier::external_body]
fn sha256_bytes(bytes: &[u8]) -> (r: Vec<u8>)
    ensures
        r@ == sha256_of(bytes@),
        r@.len() == 32,
{
    <sha2::Sha256 as sha2::Digest>::digest(bytes).to_vec()
}

/// Relies on `sha2::Sha512` through the one-shot `Digest::digest`: the
/// digest depends on the input bytes alone and is 64 bytes long.
#[verifier::external_body]
fn sha512_bytes(bytes: &[u8]) -> (r: Vec<u8>)
    ensures
        r@ == sha512_of(bytes@),
        r@.len() == 64,
{
    <sha2::Sha512 as sha2::Digest>::digest(bytes).to_vec()
}

/// The digest the given algorithm assigns to a byte string.
pub open spec fn digest_of(kind: ChecksumKind, bytes: Seq<u8>) -> Seq<u8> {
    match kind {
        ChecksumKind::Sha256 => sha256_of(bytes),
        ChecksumKind::Sha512 => sha512_of(bytes),
    }
}

/// The lowercase hex rendering of the digest of `bytes` under `kind`.
pub fn compute_digest_hex(kind: ChecksumKind, bytes: &[u8]) -> (r: String)
    ensures
        r@ == hex_of_bytes(digest_of(kind, bytes@)),
{
    match kind {
        ChecksumKind::Sha256 => {
            let d = sha256_bytes(bytes);
            hex_encode(d.as_slice())
        },
        ChecksumKind::Sha512 => {
            let d = sha512_bytes(bytes);
            hex_encode(d.as_slice())
        },
    }
}

// ---------------------------------------------------------------------------
// Verification
// ---------------------------------------------------------------------------

/// Verification succeeds exactly when the hex form of the computed digest
/// equals the expected value up to ASCII case.
pub fn verify_bytes(kind: ChecksumKind, bytes: &[u8], expected_hex: &str) -> (r: bool)
    ensures
        r == eq_ignore_case(hex_of_bytes(digest_of(kind, bytes@)), expected_hex@),
{
    let got = compute_digest_hex(kind, bytes);
    str_eq_ignore_case(got.as_str(), expected_hex)
}

/// Verify `bytes` against a typed checksum; a mismatch reports both the
/// expected value and the computed one.
pub fn verify_checksum(bytes: &[u8], checksum: &ImageChecksum) -> (r: Result<
    (),
    ResolveError,
>)
    ensures
        r is Ok <==> eq_ignore_case(
            hex_of_bytes(digest_of(checksum@.kind, bytes@)),
            checksum@.value,
        ),
        r matches Err(e) ==> e matches ResolveError::ChecksumMismatch { expected, actual }
            && expected@ == checksum@.value
            && actual@ == hex_of_bytes(digest_of(checksum@.kind, bytes@)),
{
    let got = compute_digest_hex(checksum.kind(), bytes);
    if str_eq_ignore_case(got.as_str(), checksum.value()) {
        Ok(())
    } else {
        Err(ResolveError::ChecksumMismatch {
            expected: String::from_str(checksum.value()),
            actual: got,
        })
    }
}

/// The case folding of every character of two sequences.
pub open spec fn lower_codes(s: Seq<char>) -> Seq<int> {
    s.map_values(|c: char| lower_code(c))
}

/// Case-insensitive equality is exactly equality of the two sequences
/// after folding each character to lowercase: verification succeeds iff
/// the lowercase forms of the computed and the expected digest agree.
pub proof fn lemma_eq_ignore_case_is_lower_eq(a: Seq<char>, b: Seq<char>)
    ensures
        eq_ignore_case(a, b) <==> lower_codes(a) == lower_codes(b),
{
    if eq_ignore_case(a, b) {
        assert(lower_codes(a) =~= lower_codes(b));
    }
    if lower_codes(a) == lower_codes(b) {
        assert(a.len() == lower_codes(a).len() && b.len() == lower_codes(b).len());
        assert forall|i: int| 0 <= i < a.len() implies lower_code(a[i]) == lower_code(b[i]) by {
            assert(lower_codes(a)[i] == lower_code(a[i]));
            assert(lower_codes(b)[i] == lower_code(b[i]));
        }
    }
}

} // verus!
