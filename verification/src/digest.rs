//! Content hashes: the SHA-1 digest of a file's bytes, written as forty
//! lower-case hexadecimal digits.

use vstd::prelude::*;
use sha1::{Digest, Sha1};
use crate::error::DvcsError;

verus! {

/// The SHA-1 digest of a sequence of bytes.
pub uninterp spec fn sha1_of(data: Seq<u8>) -> Seq<u8>;

/// The sixteen hexadecimal digits, in lower case.
pub open spec fn hex_digits() -> Seq<char> {
    seq!['0', '1', '2', '3', '4', '5', '6', '7', '8', '9', 'a', 'b', 'c', 'd', 'e', 'f']
}

/// Two digits for each byte, the high half first.
pub open spec fn hex_of(bytes: Seq<u8>) -> Seq<char> {
    Seq::new(
        2 * bytes.len(),
        |i: int|
            if i % 2 == 0 {
                hex_digits()[bytes[i / 2] as int / 16]
            } else {
                hex_digits()[bytes[i / 2] as int % 16]
            },
    )
}

/// Calls `sha1::Sha1::digest`, which feeds the bytes to a fresh hasher and
/// finalizes it. Trusted: the result is the SHA-1 digest of the bytes, a
/// function of the bytes alone, and it is twenty bytes long.
#[verifier::external_body]
fn sha1_digest(data: &Vec<u8>) -> (digest: Vec<u8>)
    ensures
        digest@ == sha1_of(data@),
        digest@.len() == 20,
{
    Sha1::digest(data.as_slice()).to_vec()
}

/// Calls `hex::encode`. Trusted: the result holds two lower-case
/// hexadecimal digits for each byte, in the order of the bytes, the digit of
/// the high four bits before that of the low four.
#[verifier::external_body]
fn hex_encode(bytes: &Vec<u8>) -> (text: String)
    ensures
        text@ == hex_of(bytes@),
{
    hex::encode(bytes)
}

/// The content hash of a file's bytes.
pub open spec fn content_hash(content: Seq<u8>) -> Seq<char> {
    hex_of(sha1_of(content))
}

/// The hash of the bytes that were read; fails where nothing could be read.
pub fn create_sha_1_hex(content: &Option<Vec<u8>>) -> (hash: Result<String, DvcsError>)
    ensures
        match hash {
            Ok(text) => content.is_some() && text@ == content_hash(content.unwrap()@) && text@.len() == 40,
            Err(e) => content.is_none() && e == DvcsError::Unreadable,
        },
{
    match content {
        Some(bytes) => {
            let digest = sha1_digest(bytes);
            Ok(hex_encode(&digest))
        },
        None => Err(DvcsError::Unreadable),
    }
}

} // verus!
