use vachat::e2ee::{
    encrypted_kind, megolm_fields, olm_message_kind, plain_text_content, select_olm_ciphertext,
    shared_room_key, EncryptedKind, OlmCiphertext, OlmMessageKind, RoomKey,
};

fn ct(t: Option<u64>, body: Option<&str>) -> OlmCiphertext {
    OlmCiphertext { msg_type: t, body: body.map(|b| b.to_string()) }
}

#[test]
fn messages_are_olm_unless_they_name_megolm() {
    assert_eq!(encrypted_kind(Some("m.megolm.v1.aes-sha2")), EncryptedKind::Megolm);
    assert_eq!(encrypted_kind(Some("m.olm.v1.curve25519-aes-sha2")), EncryptedKind::Olm);
    assert_eq!(encrypted_kind(Some("other")), EncryptedKind::Olm);
    assert_eq!(encrypted_kind(None), EncryptedKind::Olm);
}

#[test]
fn the_ciphertext_of_the_first_known_device_is_taken() {
    let keys = vec!["KEY_A".to_string(), "KEY_B".to_string()];
    let cts = vec![
        ("KEY_B".to_string(), ct(Some(1), Some("bbb"))),
        ("m.olm.v1.curve25519-aes-sha2:KEY_A".to_string(), ct(Some(0), Some("aaa"))),
    ];
    assert_eq!(select_olm_ciphertext(&keys, &cts, true), Some(("KEY_A".to_string(), 0, "aaa".to_string())));
    assert_eq!(select_olm_ciphertext(&keys, &cts, false), Some(("KEY_B".to_string(), 1, "bbb".to_string())));
    assert_eq!(select_olm_ciphertext(&vec!["KEY_C".to_string()], &cts, true), None);
    assert_eq!(select_olm_ciphertext(&Vec::new(), &cts, true), None);
}

#[test]
fn missing_ciphertext_fields_take_defaults() {
    let keys = vec!["K".to_string()];
    let cts = vec![("K".to_string(), ct(None, None))];
    assert_eq!(select_olm_ciphertext(&keys, &cts, false), Some(("K".to_string(), 0, String::new())));
    let cts = vec![("K".to_string(), ct(Some(u64::from(u32::MAX) + 2), Some("x")))];
    assert_eq!(select_olm_ciphertext(&keys, &cts, false), Some(("K".to_string(), 1, "x".to_string())));
}

#[test]
fn olm_message_kinds() {
    assert_eq!(olm_message_kind(0), OlmMessageKind::PreKey);
    assert_eq!(olm_message_kind(1), OlmMessageKind::Normal);
    assert_eq!(olm_message_kind(7), OlmMessageKind::Normal);
}

#[test]
fn megolm_messages_need_a_session_and_a_ciphertext() {
    assert_eq!(megolm_fields(Some("s1"), Some("c1")), Some(("s1".to_string(), "c1".to_string())));
    assert_eq!(megolm_fields(Some(""), Some("c1")), None);
    assert_eq!(megolm_fields(Some("s1"), None), None);
    assert_eq!(megolm_fields(None, Some("c1")), None);
}

#[test]
fn plain_decrypted_text_is_a_text_message() {
    let c = plain_text_content("hello");
    assert_eq!(c.body.as_deref(), Some("hello"));
    assert_eq!(c.msgtype.as_deref(), Some("m.text"));
    assert!(!c.has_format);
}

#[test]
fn room_keys_are_taken_from_megolm_room_key_events() {
    let megolm = Some("m.megolm.v1.aes-sha2");
    assert_eq!(
        shared_room_key(Some("m.room_key"), megolm, Some("sid"), Some("skey"), Some("!dm_1_2:x")),
        Some(RoomKey { session_id: "sid".to_string(), session_key: "skey".to_string(), room_id: "!dm_1_2:x".to_string() })
    );
    assert_eq!(
        shared_room_key(Some("m.room_key"), megolm, Some("sid"), Some("skey"), None).map(|k| k.room_id),
        Some(String::new())
    );
    assert_eq!(shared_room_key(Some("m.dummy"), megolm, Some("sid"), Some("skey"), None), None);
    assert_eq!(shared_room_key(Some("m.room_key"), Some("m.olm.v1"), Some("sid"), Some("skey"), None), None);
    assert_eq!(shared_room_key(Some("m.room_key"), megolm, Some(""), Some("skey"), None), None);
    assert_eq!(shared_room_key(Some("m.room_key"), megolm, Some("sid"), None, None), None);
}
