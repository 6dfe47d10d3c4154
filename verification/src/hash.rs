//! Smartupdate hash.
//!
//! The plist metadata carries a hex MD5 of a short tag string as a
//! cache-buster for downstream tooling.

use vstd::prelude::*;
use md5::{Digest, Md5};
use crate::numfmt::{hex_str, fmt_hex};

verus! {

/// The MD5 digest of a byte sequence, as the md-5 crate computes it; a
/// function of the bytes alone.
pub uninterp spec fn md5_of(data: Seq<u8>) -> Seq<u8>;

/// Relies on md5::Md5 (the md-5 crate) through the Digest trait:
/// `Md5::digest` returns the 16-byte MD5 digest of the input, a function
/// of the bytes alone.
#[verifier::external_body]
fn md5_digest(data: &[u8]) -> (r: Vec<u8>)
    ensures
        r@ == md5_of(data@),
        r@.len() == 16,
{
    Md5::digest(data).to_vec()
}

/// The hex MD5 of a byte sequence.
pub open spec fn md5_hex(data: Seq<u8>) -> Seq<char> {
    hex_str(md5_of(data))
}

/// MD5 of the bytes, hex-encoded in lower case: 32 hex digits.
pub fn calculate_md5(data: &[u8]) -> (r: String)
    ensures
        r@ == md5_hex(data@),
        r@.len() == 32,
{
    let digest = md5_digest(data);
    fmt_hex(digest.as_slice())
}

} // verus!
