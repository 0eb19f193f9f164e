//! Digests of bytes.

use vstd::prelude::*;
use vstd::string::*;
use sha2::{Digest, Sha256};
use crate::number;
use crate::number::show_hex;

verus! {

/// What [`Sha256::digest`] gives for bytes.
pub uninterp spec fn sha256_of(bytes: Seq<u8>) -> Seq<u8>;

/// [`Sha256::digest`]: the digest of bytes, which is 32 bytes long.
#[verifier::external_body]
pub(crate) fn sha256(bytes: &Vec<u8>) -> (out: Vec<u8>)
    ensures
        out@ == sha256_of(bytes@),
        out@.len() == 32,
{
    Sha256::digest(bytes).to_vec()
}

/// The first `n` bytes of a digest, in hexadecimal.
pub open spec fn short_digest(bytes: Seq<u8>, n: int) -> Seq<char> {
    number::hex(sha256_of(bytes).take(n))
}

/// The first `n` bytes of a digest, in hexadecimal.
pub fn digest_prefix(bytes: &Vec<u8>, n: usize) -> (out: String)
    requires
        n <= 32,
    ensures
        out@ == short_digest(bytes@, n as int),
        out@.len() == 2 * n,
{
    let mut d = sha256(bytes);
    d.truncate(n);
    assert(d@ =~= sha256_of(bytes@).take(n as int));
    proof {
        number::lemma_hex_len(d@);
    }
    show_hex(&d)
}

/// The bytes of a text.
pub fn bytes_of(s: &str) -> (out: Vec<u8>)
    ensures
        out@ == vstd::utf8::encode_utf8(s@),
{
    s.as_bytes_vec()
}

} // verus!
