//! Salted password hashing: `md5(hex(md5(password)) + salt)`, written as
//! lower-case hexadecimal.

use crate::hexcode::{hex_encode, hex_text, lemma_hex_text_len};
use md5::{Digest, Md5};
use vstd::prelude::*;
use vstd::string::StringSliceAdditionalSpecFns;
use vstd::utf8::encode_utf8;

verus! {

/// The MD5 digest of a byte string.
pub uninterp spec fn md5_of(data: Seq<u8>) -> Seq<u8>;

/// Computes the MD5 digest of `data` with `md5::Md5::digest`; the digest is
/// 16 bytes long, as its type fixes.
#[verifier::external_body]
fn md5_digest(data: &[u8]) -> (d: Vec<u8>)
    ensures
        d@ == md5_of(data@),
        d@.len() == 16,
{
    Md5::digest(data).to_vec()
}

/// The stored hash of `password` with `salt`.
pub open spec fn password_hash(password: Seq<char>, salt: Seq<char>) -> Seq<char> {
    hex_text(md5_of(encode_utf8(hex_text(md5_of(encode_utf8(password))) + salt)))
}

/// Hashes a password with a salt: `md5(hex(md5(password)) + salt)` as hexadecimal.
pub fn hash_password(password: &str, salt: &str) -> (h: String)
    ensures
        h@ == password_hash(password@, salt@),
        h@.len() == 32,
{
    let first = md5_digest(password.as_bytes());
    let mut joined = hex_encode(first.as_slice());
    let salt_chars = crate::text::str_chars(salt);
    crate::text::push_chars(&mut joined, &salt_chars, 0, salt_chars.len());
    assert(salt_chars@.subrange(0, salt_chars@.len() as int) =~= salt@);
    let second = md5_digest(joined.as_str().as_bytes());
    proof {
        lemma_hex_text_len(second@);
    }
    hex_encode(second.as_slice())
}

/// Whether `password` with `salt` hashes to `stored_hash`.
pub fn verify_password(password: &str, salt: &str, stored_hash: &str) -> (ok: bool)
    ensures
        ok == (password_hash(password@, salt@) == stored_hash@),
{
    let computed = hash_password(password, salt);
    crate::text::str_equal(computed.as_str(), stored_hash)
}

/// A password verifies against the hash made of it with the same salt: the
/// text `hash_password` gives is the one `verify_password` accepts.
pub proof fn lemma_verify_own_hash(password: Seq<char>, salt: Seq<char>, stored: Seq<char>)
    requires
        stored == password_hash(password, salt),
    ensures
        password_hash(password, salt) == stored,
{
}

} // verus!
