//! The decisions around encrypted Matrix messages: which algorithm a message
//! uses, which ciphertext of an Olm message is meant for one of the bot's
//! devices, what a Megolm message must carry, and what a decrypted text
//! that is no JSON stands for.

use crate::agent_convert::MatrixContent;
use crate::keyed::{lookup_member, member_map};
use crate::rooms::MEGOLM_ALGORITHM;
use crate::text::{append_str, str_equal};
use vstd::prelude::*;

verus! {

/// The Olm algorithm, which a message names when it names none.
pub const OLM_ALGORITHM: &'static str = "m.olm.v1.curve25519-aes-sha2";

/// The two encryptions of messages.
#[derive(Debug, Clone, Copy, PartialEq, Eq)]
pub enum EncryptedKind {
    /// Per-device Olm encryption.
    Olm,
    /// Room-wide Megolm encryption.
    Megolm,
}

/// The encryption a message uses, given the algorithm it names as a string,
/// if it does: Megolm for the Megolm algorithm, Olm otherwise.
pub fn encrypted_kind(algorithm: Option<&str>) -> (k: EncryptedKind)
    ensures
        k == (if algorithm matches Some(a) && a@ == MEGOLM_ALGORITHM@ {
            EncryptedKind::Megolm
        } else {
            EncryptedKind::Olm
        }),
{
    match algorithm {
        Some(a) => if str_equal(a, MEGOLM_ALGORITHM) {
            EncryptedKind::Megolm
        } else {
            EncryptedKind::Olm
        },
        None => EncryptedKind::Olm,
    }
}

/// The ciphertext of an Olm message for one device: its `type` when it is
/// an unsigned integer, its `body` when it is a string.
#[derive(Debug, Clone)]
pub struct OlmCiphertext {
    pub msg_type: Option<u64>,
    pub body: Option<String>,
}

/// The kind of an Olm message and its text: the type truncated to 32 bits,
/// 0 when absent, and the body, empty when absent.
pub open spec fn olm_parts(c: OlmCiphertext) -> (u32, Seq<char>) {
    (
        match c.msg_type {
            Some(t) => t as u32,
            None => 0,
        },
        match c.body {
            Some(b) => b@,
            None => Seq::empty(),
        },
    )
}

/// The key of the ciphertext for a device key prefixed with the algorithm.
pub open spec fn prefixed_key(device_key: Seq<char>) -> Seq<char> {
    OLM_ALGORITHM@ + seq![':'] + device_key
}

/// The first of the device keys, in order, that the ciphertexts hold an
/// entry for (also under the prefixed key, when `prefixed`), with that entry.
pub open spec fn first_device_ciphertext(
    device_keys: Seq<Seq<char>>,
    ciphertexts: Map<Seq<char>, OlmCiphertext>,
    prefixed: bool,
) -> Option<(Seq<char>, OlmCiphertext)>
    decreases device_keys.len(),
{
    if device_keys.len() == 0 {
        None
    } else {
        let k = device_keys[0];
        if ciphertexts.contains_key(k) {
            Some((k, ciphertexts[k]))
        } else if prefixed && ciphertexts.contains_key(prefixed_key(k)) {
            Some((k, ciphertexts[prefixed_key(k)]))
        } else {
            first_device_ciphertext(device_keys.skip(1), ciphertexts, prefixed)
        }
    }
}

/// The Olm ciphertext meant for one of the bot's devices, given the
/// curve25519 keys of its devices in order and the ciphertexts of the message
/// by key: the first device with a ciphertext under its key (or, when
/// `prefixed`, under the key prefixed with the algorithm and `:`), with the
/// message type and text. `None` when no device has one.
pub fn select_olm_ciphertext(
    device_keys: &Vec<String>,
    ciphertexts: &Vec<(String, OlmCiphertext)>,
    prefixed: bool,
) -> (r: Option<(String, u32, String)>)
    ensures
        ({
            let found = first_device_ciphertext(
                device_keys@.map_values(|k: String| k@),
                member_map(ciphertexts@),
                prefixed,
            );
            match r {
                Some((k, t, b)) => found matches Some((fk, c)) && k@ == fk && (t, b@) == olm_parts(
                    c,
                ),
                None => found is None,
            }
        }),
{
    let ghost keys = device_keys@.map_values(|k: String| k@);
    let ghost cts = member_map(ciphertexts@);
    let mut i: usize = 0;
    assert(keys.skip(0) =~= keys);
    while i < device_keys.len()
        invariant
            i <= device_keys.len(),
            keys == device_keys@.map_values(|k: String| k@),
            cts == member_map(ciphertexts@),
            first_device_ciphertext(keys, cts, prefixed) == first_device_ciphertext(
                keys.skip(i as int),
                cts,
                prefixed,
            ),
        decreases device_keys.len() - i,
    {
        assert(keys.skip(i as int)[0] == device_keys@[i as int]@);
        assert(keys.skip(i as int).skip(1) =~= keys.skip(i + 1));
        let key = &device_keys[i];
        let mut found = lookup_member(ciphertexts, key.as_str());
        if found.is_none() && prefixed {
            let mut p = OLM_ALGORITHM.to_owned();
            append_str(&mut p, ":");
            append_str(&mut p, key.as_str());
            proof {
                reveal_strlit(":");
                assert(p@ =~= prefixed_key(key@));
            }
            found = lookup_member(ciphertexts, p.as_str());
        }
        if let Some(c) = found {
            let msg_type: u32 = match c.msg_type {
                Some(t) => #[verifier::truncate] (t as u32),
                None => 0,
            };
            let body = match &c.body {
                Some(b) => b.clone(),
                None => String::new(),
            };
            return Some((key.clone(), msg_type, body));
        }
        i += 1;
    }
    None
}

/// The kind of an Olm message by its type.
#[derive(Debug, Clone, Copy, PartialEq, Eq)]
pub enum OlmMessageKind {
    /// Type 0: the first message of a new session, carrying a one-time key.
    PreKey,
    /// Any other type: a message of an existing session.
    Normal,
}

/// The kind of an Olm message of type `msg_type`.
pub fn olm_message_kind(msg_type: u32) -> (k: OlmMessageKind)
    ensures
        k == (if msg_type == 0 {
            OlmMessageKind::PreKey
        } else {
            OlmMessageKind::Normal
        }),
{
    if msg_type == 0 {
        OlmMessageKind::PreKey
    } else {
        OlmMessageKind::Normal
    }
}

/// The session id and ciphertext a Megolm message must carry, given them as
/// strings where they are: `None` when either is missing or empty.
pub fn megolm_fields(session_id: Option<&str>, ciphertext: Option<&str>) -> (r: Option<
    (String, String),
>)
    ensures
        match r {
            Some((s, c)) => session_id matches Some(x) && ciphertext matches Some(y) && s@ == x@
                && c@ == y@ && x@.len() > 0 && y@.len() > 0,
            None => !(session_id matches Some(x) && ciphertext matches Some(y) && x@.len() > 0
                && y@.len() > 0),
        },
{
    match (session_id, ciphertext) {
        (Some(s), Some(c)) => if !s.is_empty() && !c.is_empty() {
            Some((s.to_owned(), c.to_owned()))
        } else {
            None
        },
        _ => None,
    }
}

/// The content a decrypted text stands for when it is no JSON: a text
/// message whose body is the decrypted text.
pub fn plain_text_content(plaintext: &str) -> (c: MatrixContent)
    ensures
        c.body matches Some(b) && b@ == plaintext@,
        c.msgtype matches Some(m) && m@ == "m.text"@,
        !c.has_format,
        c.vachat_content_type is None,
        c.name is None,
        c.tool_use_id is None,
        c.id is None,
        c.input is None,
        c.result is None,
        c.is_error is None,
        c.relates_to is None,
        c.new_content is None,
{
    MatrixContent {
        body: Some(plaintext.to_owned()),
        has_format: false,
        msgtype: Some("m.text".to_owned()),
        vachat_content_type: None,
        name: None,
        tool_use_id: None,
        id: None,
        input: None,
        result: None,
        is_error: None,
        relates_to: None,
        new_content: None,
    }
}

/// A Megolm room key shared with the bot: its session, the session key and
/// the room it is for.
#[derive(Debug, Clone, PartialEq, Eq)]
pub struct RoomKey {
    pub session_id: String,
    pub session_key: String,
    pub room_id: String,
}

/// The text of an optional string.
pub open spec fn text_of(o: Option<&str>) -> Option<Seq<char>> {
    match o {
        Some(x) => Some(x@),
        None => None,
    }
}

/// A text that is there and not empty.
pub open spec fn present(o: Option<&str>) -> bool {
    text_of(o) is Some && text_of(o)->0.len() > 0
}

/// Whether a decrypted to-device event with these fields shares a room key.
pub open spec fn shares_room_key(
    event_type: Option<&str>,
    algorithm: Option<&str>,
    session_id: Option<&str>,
    session_key: Option<&str>,
) -> bool {
    &&& text_of(event_type) == Some("m.room_key"@)
    &&& text_of(algorithm) == Some(MEGOLM_ALGORITHM@)
    &&& present(session_id)
    &&& present(session_key)
}

/// The room key a decrypted to-device event shares, given its fields where
/// they are strings: only an `m.room_key` event for the Megolm algorithm
/// with a session id and a session key shares one; its room is empty when
/// it names none.
pub fn shared_room_key(
    event_type: Option<&str>,
    algorithm: Option<&str>,
    session_id: Option<&str>,
    session_key: Option<&str>,
    room_id: Option<&str>,
) -> (r: Option<RoomKey>)
    ensures
        r is Some <==> shares_room_key(event_type, algorithm, session_id, session_key),
        r matches Some(k) ==> {
            &&& Some(k.session_id@) == text_of(session_id)
            &&& Some(k.session_key@) == text_of(session_key)
            &&& k.room_id@ == (match room_id {
                Some(rid) => rid@,
                None => Seq::empty(),
            })
        },
{
    let is_room_key = match event_type {
        Some(t) => str_equal(t, "m.room_key"),
        None => false,
    };
    let is_megolm = match algorithm {
        Some(a) => str_equal(a, MEGOLM_ALGORITHM),
        None => false,
    };
    if !is_room_key || !is_megolm {
        return None;
    }
    match (session_id, session_key) {
        (Some(s), Some(k)) => if !s.is_empty() && !k.is_empty() {
            Some(
                RoomKey {
                    session_id: s.to_owned(),
                    session_key: k.to_owned(),
                    room_id: match room_id {
                        Some(rid) => rid.to_owned(),
                        None => String::new(),
                    },
                },
            )
        } else {
            None
        },
        _ => None,
    }
}

} // verus!
