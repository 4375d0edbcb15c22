//! SHA-1 verification of dump files.
//!
//! Wikipedia publishes a `*-sha1sums.txt` file beside each dump. The dump is
//! fed to a [`Sha1Stream`] piece by piece, so the file never has to be in
//! memory at once, and its hex digest is compared with the published one
//! without regard to case.

use sha1::{Digest, Sha1};
use vstd::prelude::*;

use crate::error::TomeError;
use crate::text::{chars_eq_ignore_ascii_case, chars_of, eq_ignore_ascii_case, push_str_chars, string_of};

verus! {

/// The SHA-1 digest of `data`, as computed by the `sha1` crate.
pub uninterp spec fn sha1_digest(data: Seq<u8>) -> Seq<u8>;

/// A hexadecimal digit in lower case.
pub open spec fn hex_digit(n: int) -> char {
    if n < 10 {
        (('0' as int) + n) as char
    } else {
        (('a' as int) + n - 10) as char
    }
}

/// The lower-case hexadecimal spelling of `bytes`, two digits per byte,
/// high half first.
pub open spec fn hex_lower(bytes: Seq<u8>) -> Seq<char>
    decreases bytes.len(),
{
    if bytes.len() == 0 {
        Seq::empty()
    } else {
        let b = bytes.last() as int;
        hex_lower(bytes.drop_last()) + seq![hex_digit(b / 16), hex_digit(b % 16)]
    }
}

/// A SHA-1 computation in progress. Verus cannot take the `sha1` crate's
/// hasher type as a declared type (its bounds are written in `typenum`
/// arithmetic), so the stream is opaque and what it has absorbed is named by
/// [`sha1_absorbed`]; only the wrappers below create and advance it.
#[verifier::external_body]
pub struct Sha1Stream {
    hasher: Sha1,
}

/// The bytes that a stream has absorbed, in order.
pub uninterp spec fn sha1_absorbed(s: Sha1Stream) -> Seq<u8>;

/// `Sha1::new()`: a hasher that has absorbed nothing.
#[verifier::external_body]
fn sha1_new() -> (r: Sha1Stream)
    ensures
        sha1_absorbed(r) == Seq::<u8>::empty(),
{
    Sha1Stream { hasher: Sha1::new() }
}

/// `Digest::update`: the hasher has then absorbed `data` after what it had
/// absorbed before.
#[verifier::external_body]
fn sha1_update(s: &mut Sha1Stream, data: &[u8])
    ensures
        sha1_absorbed(*final(s)) == sha1_absorbed(*old(s)) + data@,
{
    s.hasher.update(data);
}

/// `Digest::finalize`: the 20-byte SHA-1 digest of everything the hasher
/// absorbed.
#[verifier::external_body]
fn sha1_finalize(s: Sha1Stream) -> (r: Vec<u8>)
    ensures
        r@ == sha1_digest(sha1_absorbed(s)),
        r@.len() == 20,
{
    s.hasher.finalize().to_vec()
}

/// `hex::encode`: two lower-case hexadecimal digits per byte.
#[verifier::external_body]
fn hex_encode(bytes: &[u8]) -> (r: String)
    ensures
        r@ == hex_lower(bytes@),
{
    hex::encode(bytes)
}

impl Sha1Stream {
    /// A stream that has absorbed nothing.
    pub fn new() -> (r: Self)
        ensures
            sha1_absorbed(r) == Seq::<u8>::empty(),
    {
        sha1_new()
    }

    /// Absorbs `data` after what came before.
    pub fn update(&mut self, data: &[u8])
        ensures
            sha1_absorbed(*final(self)) == sha1_absorbed(*old(self)) + data@,
    {
        sha1_update(self, data);
    }

    /// The lower-case hex digest of everything absorbed.
    pub fn finish_hex(self) -> (r: String)
        ensures
            r@ == hex_lower(sha1_digest(sha1_absorbed(self))),
    {
        let digest = sha1_finalize(self);
        hex_encode(digest.as_slice())
    }
}

/// What checking a digest against the published one gives: success when
/// the two agree up to ASCII case, else the text of the `Integrity` error.
pub open spec fn sha1_check_spec(actual: Seq<char>, expected: Seq<char>) -> Result<(), Seq<char>> {
    if eq_ignore_ascii_case(actual, expected) {
        Ok(())
    } else {
        Err("sha1 mismatch: expected "@ + expected + ", got "@ + actual)
    }
}

/// Compares the digest of everything `hasher` absorbed with `expected_hex`,
/// ignoring ASCII case.
pub fn verify_sha1(hasher: Sha1Stream, expected_hex: &str) -> (r: Result<(), TomeError>)
    ensures
        match sha1_check_spec(hex_lower(sha1_digest(sha1_absorbed(hasher))), expected_hex@) {
            Ok(()) => r is Ok,
            Err(m) => r matches Err(TomeError::Integrity(x)) && x@ == m,
        },
{
    let actual = hasher.finish_hex();
    let a = chars_of(actual.as_str());
    let e = chars_of(expected_hex);
    if chars_eq_ignore_ascii_case(a.as_slice(), e.as_slice()) {
        Ok(())
    } else {
        let mut out: Vec<char> = Vec::new();
        push_str_chars(&mut out, "sha1 mismatch: expected ");
        push_str_chars(&mut out, expected_hex);
        push_str_chars(&mut out, ", got ");
        push_str_chars(&mut out, actual.as_str());
        Err(TomeError::Integrity(string_of(out.as_slice())))
    }
}

} // verus!
