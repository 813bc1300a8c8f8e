//! The keys of the message database: a message is stored under `MSG/`
//! followed by its id as a big-endian `i64`.

use vstd::prelude::*;

verus! {

/// The prefix of message keys.
pub open spec fn msg_prefix() -> Seq<u8> {
    seq![0x4du8, 0x53u8, 0x47u8, 0x2fu8]
}

/// The unsigned value of big-endian bytes.
pub open spec fn be_unsigned(b: Seq<u8>) -> nat
    decreases b.len(),
{
    if b.len() == 0 {
        0
    } else {
        be_unsigned(b.drop_last()) * 256 + b.last() as nat
    }
}

/// The `i64` whose two's-complement big-endian bytes are `b` (eight bytes).
pub open spec fn be_i64(b: Seq<u8>) -> int {
    let u = be_unsigned(b);
    if u >= 0x8000_0000_0000_0000 {
        u - 0x1_0000_0000_0000_0000
    } else {
        u as int
    }
}

/// The message id a key stands for: the key is `MSG/` and eight bytes.
pub open spec fn key_msg_id(key: Seq<u8>) -> Option<int> {
    if key.len() == 12 && key.take(4) == msg_prefix() {
        Some(be_i64(key.skip(4)))
    } else {
        None
    }
}

/// The id of the first message key among `keys`.
pub open spec fn first_msg_id(keys: Seq<Seq<u8>>) -> Option<int>
    decreases keys.len(),
{
    if keys.len() == 0 {
        None
    } else {
        match key_msg_id(keys[0]) {
            Some(id) => Some(id),
            None => first_msg_id(keys.skip(1)),
        }
    }
}

/// `256^n`.
pub open spec fn pow256(n: nat) -> nat
    decreases n,
{
    if n == 0 {
        1
    } else {
        256 * pow256((n - 1) as nat)
    }
}

/// `n` big-endian bytes stay below `256^n`.
proof fn lemma_be_bound(b: Seq<u8>)
    ensures
        be_unsigned(b) < pow256(b.len()),
    decreases b.len(),
{
    if b.len() > 0 {
        lemma_be_bound(b.drop_last());
        let p = pow256((b.len() - 1) as nat);
        assert(be_unsigned(b.drop_last()) * 256 + b.last() < p * 256) by (nonlinear_arith)
            requires
                be_unsigned(b.drop_last()) < p,
                b.last() < 256,
        ;
    }
}

/// Seven big-endian bytes stay below `256^7`, which is `2^56`.
proof fn lemma_seven_bytes(b: Seq<u8>)
    requires
        b.len() <= 7,
    ensures
        be_unsigned(b) < 0x100_0000_0000_0000,
{
    lemma_be_bound(b);
    assert(pow256(0) == 1);
    assert(pow256(1) == 256);
    assert(pow256(2) == 0x1_0000);
    assert(pow256(3) == 0x100_0000);
    assert(pow256(4) == 0x1_0000_0000);
    assert(pow256(5) == 0x100_0000_0000);
    assert(pow256(6) == 0x1_0000_0000_0000);
    assert(pow256(7) == 0x100_0000_0000_0000);
}

/// The message id of a key, when it is a message key.
pub fn msg_id_of_key(key: &[u8]) -> (r: Option<i64>)
    ensures
        match r {
            Some(id) => key_msg_id(key@) == Some(id as int),
            None => key_msg_id(key@) is None,
        },
{
    if key.len() != 12 || key[0] != 0x4d || key[1] != 0x53 || key[2] != 0x47 || key[3] != 0x2f {
        proof {
            if key@.len() == 12 && key@.take(4) == msg_prefix() {
                assert(key@.take(4)[0] == key@[0]);
                assert(key@.take(4)[1] == key@[1]);
                assert(key@.take(4)[2] == key@[2]);
                assert(key@.take(4)[3] == key@[3]);
            }
        }
        return None;
    }
    assert(key@.take(4) =~= msg_prefix());
    let ghost digits = key@.skip(4);
    let mut acc: u64 = 0;
    let mut i: usize = 4;
    assert(digits.take(0) =~= Seq::<u8>::empty());
    while i < 12
        invariant
            4 <= i <= 12,
            key@.len() == 12,
            digits == key@.skip(4),
            acc == be_unsigned(digits.take(i - 4)),
        decreases 12 - i,
    {
        proof {
            lemma_seven_bytes(digits.take(i - 4));
            let t = digits.take(i - 3);
            assert(t.drop_last() =~= digits.take(i - 4));
            assert(t.last() == key@[i as int]);
        }
        acc = acc * 256 + key[i] as u64;
        i += 1;
    }
    assert(digits.take(8) =~= digits);
    if acc >= 0x8000_0000_0000_0000 {
        let low: u64 = acc - 0x8000_0000_0000_0000;
        Some(low as i64 + i64::MIN)
    } else {
        Some(acc as i64)
    }
}

/// The id of the greatest message, given the keys of the database from the
/// greatest down: that of the first message key (keys are ordered by their
/// bytes, and message ids are stored big-endian after `MSG/`).
pub fn max_msg_id(keys_desc: &Vec<Vec<u8>>) -> (r: Option<i64>)
    ensures
        ({
            let ks = keys_desc@.map_values(|k: Vec<u8>| k@);
            match r {
                Some(id) => first_msg_id(ks) == Some(id as int),
                None => first_msg_id(ks) is None,
            }
        }),
{
    let ghost ks = keys_desc@.map_values(|k: Vec<u8>| k@);
    let mut i: usize = 0;
    assert(ks.skip(0) =~= ks);
    while i < keys_desc.len()
        invariant
            i <= keys_desc.len(),
            ks == keys_desc@.map_values(|k: Vec<u8>| k@),
            first_msg_id(ks) == first_msg_id(ks.skip(i as int)),
        decreases keys_desc.len() - i,
    {
        assert(ks.skip(i as int)[0] == keys_desc@[i as int]@);
        assert(ks.skip(i as int).skip(1) =~= ks.skip(i + 1));
        if let Some(id) = msg_id_of_key(keys_desc[i].as_slice()) {
            return Some(id);
        }
        i += 1;
    }
    None
}

} // verus!
