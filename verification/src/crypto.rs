//! HMAC-SHA256 keyed digests: the pickle key of encryption accounts, and the
//! signed keys of third-party logins.

use crate::hexcode::{hex_decoded, hex_encode, hex_text, lemma_hex_round_trip};
use hmac::{Hmac, Mac, NewMac};
use sha2::Sha256;
use vstd::prelude::*;
use vstd::string::StringSliceAdditionalSpecFns;

verus! {

/// The HMAC-SHA256 of `data` under `key`.
pub uninterp spec fn hmac_sha256_of(key: Seq<u8>, data: Seq<u8>) -> Seq<u8>;

/// Computes the HMAC-SHA256 of `data` under `key` with the `hmac` and `sha2`
/// crates; HMAC takes a key of any length, and the code is 32 bytes long, as
/// its type fixes.
#[verifier::external_body]
fn hmac_sha256(key: &[u8], data: &[u8]) -> (mac: Vec<u8>)
    ensures
        mac@ == hmac_sha256_of(key@, data@),
        mac@.len() == 32,
{
    let mut m = Hmac::<Sha256>::new_from_slice(key).unwrap();
    m.update(data);
    m.finalize().into_bytes().to_vec()
}

/// Checks with `Mac::verify` that `tag` is the HMAC-SHA256 of `data` under
/// `key`; the comparison takes the same time whatever the bytes.
#[verifier::external_body]
fn hmac_sha256_verify(key: &[u8], data: &[u8], tag: &[u8]) -> (ok: bool)
    ensures
        ok == (hmac_sha256_of(key@, data@) == tag@),
{
    let mut m = Hmac::<Sha256>::new_from_slice(key).unwrap();
    m.update(data);
    m.verify(tag).is_ok()
}

/// The salt the pickle key is made with.
pub const PICKLE_SALT: &'static str = "vachat-olm-pickle-salt";

/// The key the encryption accounts of a server are pickled with: the
/// HMAC-SHA256 of the server key under a fixed salt.
pub fn get_pickle_key(server_key: &str) -> (k: Vec<u8>)
    ensures
        k@ == hmac_sha256_of(PICKLE_SALT.spec_bytes(), server_key.spec_bytes()),
        k@.len() == 32,
{
    hmac_sha256(PICKLE_SALT.as_bytes(), server_key.as_bytes())
}

/// The bytes of a third-party login key: the HMAC-SHA256 of the content under
/// the server key, then the content.
pub open spec fn third_party_key_bytes(server_key: Seq<u8>, content: Seq<u8>) -> Seq<u8> {
    hmac_sha256_of(server_key, content) + content
}

/// Makes a third-party login key for `content`: its signed bytes as hexadecimal.
pub fn create_third_party_key(server_key: &str, content: &[u8]) -> (key: String)
    ensures
        key@ == hex_text(third_party_key_bytes(server_key.spec_bytes(), content@)),
{
    let mut buf = hmac_sha256(server_key.as_bytes(), content);
    let mut i: usize = 0;
    let ghost mac = buf@;
    while i < content.len()
        invariant
            i <= content.len(),
            buf@ == mac + content@.take(i as int),
        decreases content.len() - i,
    {
        buf.push(content[i]);
        i += 1;
        assert(buf@ =~= mac + content@.take(i as int));
    }
    assert(content@.take(content.len() as int) =~= content@);
    hex_encode(buf.as_slice())
}

/// The content of third-party login key bytes, when their first 32 bytes are
/// the HMAC-SHA256 of the rest under the server key.
pub open spec fn third_party_content(server_key: Seq<u8>, data: Seq<u8>) -> Option<Seq<u8>> {
    if hmac_sha256_of(server_key, data.skip(32)) == data.take(32) {
        Some(data.skip(32))
    } else {
        None
    }
}

/// Checks third-party login key bytes: their content when the signature
/// holds. The bytes hold the 32-byte signature first.
pub fn verify_third_party_key(server_key: &str, data: &[u8]) -> (r: Option<Vec<u8>>)
    requires
        data@.len() >= 32,
    ensures
        match r {
            Some(c) => third_party_content(server_key.spec_bytes(), data@) == Some(c@),
            None => third_party_content(server_key.spec_bytes(), data@) is None,
        },
{
    let mut tag: Vec<u8> = Vec::new();
    let mut content: Vec<u8> = Vec::new();
    let mut i: usize = 0;
    while i < data.len()
        invariant
            i <= data.len(),
            data@.len() >= 32,
            tag@ == data@.take(if i < 32 { i as int } else { 32 }),
            content@ == (if i < 32 { Seq::<u8>::empty() } else { data@.subrange(32, i as int) }),
        decreases data.len() - i,
    {
        if i < 32 {
            tag.push(data[i]);
        } else {
            content.push(data[i]);
        }
        i += 1;
        assert(tag@ =~= data@.take(if i < 32 { i as int } else { 32 }));
        assert(content@ =~= (if i < 32 { Seq::<u8>::empty() } else { data@.subrange(32, i as int) }));
    }
    assert(content@ =~= data@.skip(32));
    if hmac_sha256_verify(server_key.as_bytes(), content.as_slice(), tag.as_slice()) {
        Some(content)
    } else {
        None
    }
}

/// A third-party login key made for some content checks back to that content.
pub proof fn lemma_third_party_round_trip(server_key: Seq<u8>, content: Seq<u8>)
    requires
        hmac_sha256_of(server_key, content).len() == 32,
    ensures
        hex_decoded(hex_text(third_party_key_bytes(server_key, content))) == Some(
            third_party_key_bytes(server_key, content),
        ),
        third_party_content(server_key, third_party_key_bytes(server_key, content)) == Some(content),
{
    let b = third_party_key_bytes(server_key, content);
    lemma_hex_round_trip(b);
    assert(b.skip(32) =~= content);
    assert(b.take(32) =~= hmac_sha256_of(server_key, content));
}

} // verus!
