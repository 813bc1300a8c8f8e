//! Lower-case hexadecimal text of byte strings, and its reading back.

use crate::text::{push_char, str_chars};
use vstd::prelude::*;

verus! {

/// The lower-case hexadecimal digit of a value in `0..16`.
pub open spec fn hex_digit(v: int) -> char {
    if v < 10 {
        (v + '0' as int) as char
    } else {
        (v - 10 + 'a' as int) as char
    }
}

/// The lower-case hexadecimal text of a byte string, two digits per byte.
pub open spec fn hex_text(bytes: Seq<u8>) -> Seq<char>
    decreases bytes.len(),
{
    if bytes.len() == 0 {
        Seq::empty()
    } else {
        hex_text(bytes.drop_last()) + seq![
            hex_digit(bytes.last() as int / 16),
            hex_digit(bytes.last() as int % 16),
        ]
    }
}

/// The hexadecimal text of bytes has two characters per byte.
pub proof fn lemma_hex_text_len(bytes: Seq<u8>)
    ensures
        hex_text(bytes).len() == 2 * bytes.len(),
    decreases bytes.len(),
{
    if bytes.len() > 0 {
        lemma_hex_text_len(bytes.drop_last());
    }
}

/// The hexadecimal digit of a value in `0..16`.
fn hex_char(v: u8) -> (c: char)
    requires
        v < 16,
    ensures
        c == hex_digit(v as int),
{
    if v < 10 {
        (48 + v) as char
    } else {
        (87 + v) as char
    }
}

/// Writes bytes as lower-case hexadecimal (`hex::encode`).
pub fn hex_encode(bytes: &[u8]) -> (s: String)
    ensures
        s@ == hex_text(bytes@),
{
    let mut s = String::new();
    let mut i: usize = 0;
    while i < bytes.len()
        invariant
            i <= bytes.len(),
            s@ == hex_text(bytes@.take(i as int)),
        decreases bytes.len() - i,
    {
        let b = bytes[i];
        push_char(&mut s, hex_char(b / 16));
        push_char(&mut s, hex_char(b % 16));
        assert(bytes@.take(i + 1).drop_last() =~= bytes@.take(i as int));
        i += 1;
        assert(s@ =~= hex_text(bytes@.take(i as int)));
    }
    assert(bytes@.take(i as int) =~= bytes@);
    s
}

/// The value of a hexadecimal digit of either case.
pub open spec fn hex_value(c: char) -> Option<int> {
    if '0' <= c <= '9' {
        Some(c as int - '0' as int)
    } else if 'a' <= c <= 'f' {
        Some(c as int - 'a' as int + 10)
    } else if 'A' <= c <= 'F' {
        Some(c as int - 'A' as int + 10)
    } else {
        None
    }
}

/// The bytes a hexadecimal text spells (`hex::decode`): an even number of
/// digits of either case, two per byte; `None` otherwise.
pub open spec fn hex_decoded(s: Seq<char>) -> Option<Seq<u8>>
    decreases s.len(),
{
    if s.len() == 0 {
        Some(Seq::empty())
    } else if s.len() < 2 {
        None
    } else {
        match (hex_value(s[0]), hex_value(s[1]), hex_decoded(s.skip(2))) {
            (Some(hi), Some(lo), Some(rest)) => Some(seq![(hi * 16 + lo) as u8] + rest),
            _ => None,
        }
    }
}

/// The value of a hexadecimal digit of either case.
fn hex_digit_value(c: char) -> (r: Option<u8>)
    ensures
        match r {
            Some(v) => hex_value(c) == Some(v as int) && v < 16,
            None => hex_value(c) is None,
        },
{
    if '0' <= c && c <= '9' {
        Some((c as u8) - 48)
    } else if 'a' <= c && c <= 'f' {
        Some((c as u8) - 87)
    } else if 'A' <= c && c <= 'F' {
        Some((c as u8) - 55)
    } else {
        None
    }
}

/// Reads a hexadecimal text as bytes (`hex::decode`).
pub fn hex_decode(s: &str) -> (r: Option<Vec<u8>>)
    ensures
        match r {
            Some(b) => hex_decoded(s@) == Some(b@),
            None => hex_decoded(s@) is None,
        },
{
    let v = str_chars(s);
    let mut out: Vec<u8> = Vec::new();
    let mut i: usize = 0;
    assert(v@.skip(0) =~= v@);
    while i < v.len()
        invariant
            i <= v.len(),
            v@ == s@,
            hex_decoded(v@) matches Some(all) ==> hex_decoded(v@.skip(i as int)) matches Some(rest)
                && all == out@ + rest,
            hex_decoded(v@) is None ==> hex_decoded(v@.skip(i as int)) is None,
        decreases v.len() - i,
    {
        let ghost rest = v@.skip(i as int);
        if v.len() - i < 2 {
            return None;
        }
        assert(rest.skip(2) =~= v@.skip(i + 2));
        let hi = match hex_digit_value(v[i]) {
            Some(x) => x,
            None => return None,
        };
        let lo = match hex_digit_value(v[i + 1]) {
            Some(x) => x,
            None => return None,
        };
        let b: u8 = hi * 16 + lo;
        proof {
            if let Some(all) = hex_decoded(v@) {
                let r2 = hex_decoded(rest.skip(2))->0;
                assert(out@.push(b) + r2 =~= out@ + (seq![b] + r2));
            }
        }
        out.push(b);
        i += 2;
    }
    assert(v@.skip(i as int) =~= Seq::<char>::empty());
    proof {
        if let Some(all) = hex_decoded(v@) {
            assert(out@ + Seq::<u8>::empty() =~= out@);
        }
    }
    Some(out)
}

/// Reading back the hexadecimal text of bytes gives the bytes.
pub proof fn lemma_hex_round_trip(b: Seq<u8>)
    ensures
        hex_decoded(hex_text(b)) == Some(b),
    decreases b.len(),
{
    if b.len() == 0 {
        assert(hex_text(b) =~= Seq::<char>::empty());
        assert(b =~= Seq::<u8>::empty());
    } else {
        lemma_hex_round_trip(b.drop_first());
        lemma_hex_text_first(b);
        let t = hex_text(b);
        let x = b[0];
        assert(hex_value(hex_digit(x as int / 16)) == Some(x as int / 16));
        assert(hex_value(hex_digit(x as int % 16)) == Some(x as int % 16));
        assert((x as int / 16) * 16 + x as int % 16 == x as int);
        assert(t.skip(2) =~= hex_text(b.drop_first()));
        assert(seq![x] + b.drop_first() =~= b);
    }
}

/// The hexadecimal text of bytes starts with the digits of the first byte.
proof fn lemma_hex_text_first(b: Seq<u8>)
    requires
        b.len() > 0,
    ensures
        hex_text(b) == seq![hex_digit(b[0] as int / 16), hex_digit(b[0] as int % 16)] + hex_text(
            b.drop_first(),
        ),
    decreases b.len(),
{
    if b.len() == 1 {
        assert(b.drop_last() =~= Seq::<u8>::empty());
        assert(b.drop_first() =~= Seq::<u8>::empty());
        assert(hex_text(b.drop_last()) =~= Seq::<char>::empty());
        assert(b.last() == b[0]);
        assert(hex_text(b) =~= seq![hex_digit(b[0] as int / 16), hex_digit(b[0] as int % 16)]);
    } else {
        lemma_hex_text_first(b.drop_last());
        assert(b.drop_last().drop_first() =~= b.drop_first().drop_last());
        assert(b.drop_last()[0] == b[0]);
        assert(b.drop_first().last() == b.last());
    }
}

} // verus!
