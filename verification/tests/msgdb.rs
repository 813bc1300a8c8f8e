use vachat::msgdb::{max_msg_id, msg_id_of_key};

fn msg_key(mid: i64) -> Vec<u8> {
    let mut k = b"MSG/".to_vec();
    k.extend_from_slice(&mid.to_be_bytes());
    k
}

#[test]
fn message_keys_decode_their_big_endian_id() {
    assert_eq!(msg_id_of_key(&msg_key(0)), Some(0));
    assert_eq!(msg_id_of_key(&msg_key(42)), Some(42));
    assert_eq!(msg_id_of_key(&msg_key(0x0102_0304_0506_0708)), Some(0x0102_0304_0506_0708));
    assert_eq!(msg_id_of_key(&msg_key(-1)), Some(-1));
    assert_eq!(msg_id_of_key(&msg_key(i64::MIN)), Some(i64::MIN));
    assert_eq!(msg_id_of_key(&msg_key(i64::MAX)), Some(i64::MAX));
}

#[test]
fn other_keys_are_no_message_keys() {
    assert_eq!(msg_id_of_key(b"MSG/"), None);
    assert_eq!(msg_id_of_key(b"MSX/12345678"), None);
    let mut long = msg_key(5);
    long.push(0);
    assert_eq!(msg_id_of_key(&long), None);
}

#[test]
fn the_greatest_message_is_the_last_message_key() {
    let keys_desc = vec![b"SEQ/1".to_vec(), b"MSG/short".to_vec(), msg_key(99), msg_key(98)];
    assert_eq!(max_msg_id(&keys_desc), Some(99));
    assert_eq!(max_msg_id(&vec![b"SEQ/1".to_vec()]), None);
    assert_eq!(max_msg_id(&Vec::new()), None);
}
