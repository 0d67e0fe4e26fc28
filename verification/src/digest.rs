//! The digest engine: the 160-bit SHA-1 hash of a byte buffer, rendered as
//! forty lowercase hexadecimal characters.

use vstd::prelude::*;
use crate::hexadecimal::{hex_encode, hex_string, is_lower_hex_digit, lemma_hex_round_trip};

verus! {

/// The longest input that is hashed. SHA-1 counts the bits of its message in
/// 64 bits, so a message has fewer than 2^61 bytes.
pub const MAX_HASHED_LEN: u64 = 0x1fff_ffff_ffff_ffff;

/// The number of bytes in a raw digest.
pub const DIGEST_LEN: usize = 20;

/// The SHA-1 hash of `data`, as the `sha1` crate computes it.
pub uninterp spec fn sha1_digest(data: Seq<u8>) -> Seq<u8>;

/// Forty lowercase hexadecimal characters: the form in which a digest is
/// shown and in which it names a stored object.
pub open spec fn is_digest_text(text: Seq<char>) -> bool {
    &&& text.len() == 40
    &&& forall|i: int| 0 <= i < text.len() ==> is_lower_hex_digit(#[trigger] text[i])
}

/// The digest of `data` as text.
pub open spec fn digest_text(data: Seq<u8>) -> Seq<char> {
    hex_string(sha1_digest(data))
}

/// Feeds `data` to a fresh `sha1::Sha1` hasher and finalizes it. Trusted: the
/// result depends on `data` alone and is twenty bytes long (the hasher's
/// output size is fixed at twenty). Inputs of 2^61 bytes or more are left
/// out, since the hasher's bit count would overflow on them.
#[verifier::external_body]
fn sha1_hash(data: &[u8]) -> (raw: Vec<u8>)
    requires
        data@.len() <= MAX_HASHED_LEN,
    ensures
        raw@ == sha1_digest(data@),
        raw@.len() == DIGEST_LEN,
{
    let mut hasher = <::sha1::Sha1 as ::sha1::Digest>::new();
    ::sha1::Digest::update(&mut hasher, data);
    ::sha1::Digest::finalize(hasher).to_vec()
}

/// The digest of `data` as forty lowercase hexadecimal characters.
pub fn digest(data: &[u8]) -> (text: String)
    requires
        data@.len() <= MAX_HASHED_LEN,
    ensures
        text@ == digest_text(data@),
        is_digest_text(text@),
{
    let raw = sha1_hash(data);
    proof {
        lemma_hex_round_trip(raw@);
    }
    hex_encode(raw.as_slice())
}

} // verus!
