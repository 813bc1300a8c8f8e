//! Decimal text of integers: the formatting `{}` gives an `i64`, and the
//! parsing `str::parse::<i64>` accepts.

use crate::text::str_chars;
use vstd::prelude::*;

verus! {

/// Whether `c` is an ASCII decimal digit.
pub open spec fn is_digit(c: char) -> bool {
    '0' <= c <= '9'
}

/// The value of a decimal digit.
pub open spec fn digit_value(c: char) -> int {
    c as int - '0' as int
}

/// The digit character of a value in `0..10`.
pub open spec fn digit_char(d: int) -> char {
    (d + '0' as int) as char
}

/// Whether `s` is made of decimal digits only.
pub open spec fn all_digits(s: Seq<char>) -> bool {
    forall|i: int| 0 <= i < s.len() ==> is_digit(#[trigger] s[i])
}

/// The value of a string of decimal digits, read left to right.
pub open spec fn digits_value(s: Seq<char>) -> nat
    decreases s.len(),
{
    if s.len() == 0 {
        0
    } else {
        (digits_value(s.drop_last()) * 10 + digit_value(s.last())) as nat
    }
}

/// The decimal text of a natural number, without leading zeros.
pub open spec fn nat_text(n: nat) -> Seq<char>
    decreases n,
{
    if n < 10 {
        seq![digit_char(n as int)]
    } else {
        nat_text(n / 10).push(digit_char((n % 10) as int))
    }
}

/// The decimal text of an integer, with a leading `-` when it is negative.
pub open spec fn int_text(n: int) -> Seq<char> {
    if n < 0 {
        seq!['-'] + nat_text((-n) as nat)
    } else {
        nat_text(n as nat)
    }
}

/// The integer `str::parse::<i64>` reads from `s` before the range check: an
/// optional sign, then one or more digits.
pub open spec fn int_of_text(s: Seq<char>) -> Option<int> {
    if s.len() > 0 && (s[0] == '-' || s[0] == '+') {
        let d = s.skip(1);
        if d.len() > 0 && all_digits(d) {
            if s[0] == '-' {
                Some(-(digits_value(d) as int))
            } else {
                Some(digits_value(d) as int)
            }
        } else {
            None
        }
    } else if s.len() > 0 && all_digits(s) {
        Some(digits_value(s) as int)
    } else {
        None
    }
}

/// What `str::parse::<i64>` gives for `s`.
pub open spec fn parse_i64_spec(s: Seq<char>) -> Option<i64> {
    match int_of_text(s) {
        Some(n) => if i64::MIN <= n <= i64::MAX {
            Some(n as i64)
        } else {
            None
        },
        None => None,
    }
}

/// A digit string's value grows with each appended digit.
pub proof fn lemma_digits_value_prefix(s: Seq<char>, k: int)
    requires
        0 <= k <= s.len(),
        all_digits(s),
    ensures
        digits_value(s.take(k)) <= digits_value(s),
    decreases s.len() - k,
{
    if k < s.len() {
        lemma_digits_value_prefix(s, k + 1);
        assert(s.take(k + 1).drop_last() =~= s.take(k));
        assert(is_digit(s[k]));
        assert(s.take(k + 1).last() == s[k]);
    } else {
        assert(s.take(k) =~= s);
    }
}

/// The decimal text of a natural number is a non-empty digit string whose value
/// is the number.
pub proof fn lemma_nat_text(n: nat)
    ensures
        nat_text(n).len() > 0,
        all_digits(nat_text(n)),
        digits_value(nat_text(n)) == n,
        nat_text(n)[0] != '-' && nat_text(n)[0] != '+',
    decreases n,
{
    if n < 10 {
        let s = nat_text(n);
        assert(s.drop_last() =~= Seq::<char>::empty());
        assert(digit_value(digit_char(n as int)) == n);
        assert(digits_value(s) == digits_value(s.drop_last()) * 10 + digit_value(s.last()));
    } else {
        lemma_nat_text(n / 10);
        let s = nat_text(n);
        assert(s.drop_last() =~= nat_text(n / 10));
        assert(digit_value(digit_char((n % 10) as int)) == n % 10);
        assert(n == (n / 10) * 10 + n % 10) by (nonlinear_arith);
        assert(digits_value(s) == digits_value(nat_text(n / 10)) * 10 + digit_value(s.last()));
        assert forall|i: int| 0 <= i < s.len() implies is_digit(#[trigger] s[i]) by {
            if i < s.len() - 1 {
                assert(s[i] == nat_text(n / 10)[i]);
            }
        }
    }
}

/// Reading back the decimal text of an integer gives the integer.
pub proof fn lemma_int_text_parses(n: int)
    ensures
        int_of_text(int_text(n)) == Some(n),
{
    if n < 0 {
        let m = (-n) as nat;
        lemma_nat_text(m);
        assert(int_text(n).skip(1) =~= nat_text(m));
    } else {
        lemma_nat_text(n as nat);
    }
}

/// Formatting an `i64` and parsing the text back gives the same `i64`.
pub proof fn lemma_i64_round_trip(n: i64)
    ensures
        parse_i64_spec(int_text(n as int)) == Some(n),
{
    lemma_int_text_parses(n as int);
}

/// The digit character of a value in `0..10`.
fn digit_to_char(d: u64) -> (c: char)
    requires
        d < 10,
    ensures
        c == digit_char(d as int),
        is_digit(c),
{
    let b: u8 = 48 + d as u8;
    b as char
}

/// The decimal text of a natural number.
pub fn format_u64(n: u64) -> (s: Vec<char>)
    ensures
        s@ == nat_text(n as nat),
    decreases n,
{
    if n < 10 {
        let mut s: Vec<char> = Vec::new();
        s.push(digit_to_char(n));
        assert(s@ =~= nat_text(n as nat));
        s
    } else {
        let mut s = format_u64(n / 10);
        s.push(digit_to_char(n % 10));
        s
    }
}

/// The decimal text of an `i64`, as `format!("{}", n)` writes it.
pub fn format_i64(n: i64) -> (s: Vec<char>)
    ensures
        s@ == int_text(n as int),
{
    if n < 0 {
        let m: u64 = (-(n + 1)) as u64 + 1;
        let digits = format_u64(m);
        let mut s: Vec<char> = Vec::new();
        s.push('-');
        let mut i: usize = 0;
        while i < digits.len()
            invariant
                i <= digits.len(),
                s@ == seq!['-'] + digits@.take(i as int),
            decreases digits.len() - i,
        {
            s.push(digits[i]);
            i += 1;
            assert(s@ =~= seq!['-'] + digits@.take(i as int));
        }
        assert(digits@.take(digits.len() as int) =~= digits@);
        s
    } else {
        format_u64(n as u64)
    }
}

/// Reads the digits `v[lo..hi]` as a number no larger than `bound`; `None`
/// when one is not a digit, or when the value exceeds `bound`.
fn digits_upto(v: &Vec<char>, lo: usize, hi: usize, bound: u64) -> (r: Option<u64>)
    requires
        lo <= hi <= v.len(),
        bound >= 9,
    ensures
        match r {
            Some(x) => all_digits(v@.subrange(lo as int, hi as int)) && x == digits_value(
                v@.subrange(lo as int, hi as int),
            ) && x <= bound,
            None => !all_digits(v@.subrange(lo as int, hi as int)) || digits_value(
                v@.subrange(lo as int, hi as int),
            ) > bound,
        },
{
    let mut acc: u64 = 0;
    let mut i = lo;
    while i < hi
        invariant
            lo <= i <= hi <= v.len(),
            bound >= 9,
            all_digits(v@.subrange(lo as int, i as int)),
            acc == digits_value(v@.subrange(lo as int, i as int)),
            acc <= bound,
        decreases hi - i,
    {
        let c = v[i];
        if !('0' <= c && c <= '9') {
            assert(v@.subrange(lo as int, hi as int)[i - lo] == c);
            return None;
        }
        let d: u64 = (c as u32 - 48) as u64;
        assert(v@.subrange(lo as int, i + 1).drop_last() =~= v@.subrange(lo as int, i as int));
        if acc > (bound - d) / 10 {
            proof {
                let s = v@.subrange(lo as int, hi as int);
                let k = (i + 1 - lo) as int;
                assert(s.take(k) =~= v@.subrange(lo as int, i + 1));
                if all_digits(s) {
                    lemma_digits_value_prefix(s, k);
                }
                assert(acc * 10 + d > bound) by (nonlinear_arith)
                    requires
                        acc > (bound - d) / 10,
                        d <= 9,
                        d <= bound || true,
                ;
            }
            return None;
        }
        proof {
            assert(acc * 10 + d <= bound) by (nonlinear_arith)
                requires
                    acc <= (bound - d) / 10,
                    d <= bound,
            ;
        }
        acc = acc * 10 + d;
        i += 1;
    }
    Some(acc)
}

/// Parses `s` as an `i64`, as `str::parse::<i64>` does.
pub fn parse_i64(s: &str) -> (r: Option<i64>)
    ensures
        r == parse_i64_spec(s@),
{
    let v = str_chars(s);
    let n = v.len();
    if n == 0 {
        return None;
    }
    if v[0] == '-' || v[0] == '+' {
        assert(v@.skip(1) =~= v@.subrange(1, n as int));
        if n == 1 {
            return None;
        }
        let bound: u64 = if v[0] == '-' {
            9223372036854775808
        } else {
            9223372036854775807
        };
        match digits_upto(&v, 1, n, bound) {
            Some(x) => {
                if v[0] == '-' {
                    if x == 9223372036854775808 {
                        Some(i64::MIN)
                    } else {
                        Some(-(x as i64))
                    }
                } else {
                    Some(x as i64)
                }
            },
            None => None,
        }
    } else {
        assert(v@.subrange(0, n as int) =~= v@);
        match digits_upto(&v, 0, n, 9223372036854775807) {
            Some(x) => Some(x as i64),
            None => None,
        }
    }
}

} // verus!
