//! Matrix authentication: identifiers, request credentials, path segments and
//! the rate limiting of failed authentication attempts.

use crate::num::{format_u64, nat_text};
use crate::password::{password_hash, verify_password};
use crate::state::{first_bot_named, first_user, has_key_named, holds_key, Cache, CacheUser};
use crate::text::{
    chars_string, has_prefix, is_prefix, push_chars, skip_until, skip_until_at, str_chars,
    str_equal, trim, trim_range,
};
use vstd::prelude::*;
use vstd::string::StringSliceAdditionalSpecFns;
use vstd::utf8::{decode_utf8, encode_utf8, encode_utf8_decode_utf8, valid_utf8};

verus! {

/// Failed attempts within the window after which a client is blocked.
pub const MAX_AUTH_FAILURES: u32 = 5;

/// Seconds after a client's first failure during which failures count
/// together: a failure more than this many whole seconds later starts a new count.
pub const AUTH_FAILURE_WINDOW_SECS: u64 = 60;

/// Seconds a client stays blocked.
pub const AUTH_BLOCK_DURATION_SECS: u64 = 120;

/// Matrix domain used when none is configured.
pub const DEFAULT_MATRIX_DOMAIN: &'static str = "localhost";

/// Device id used when a login names none.
pub const DEFAULT_DEVICE_ID: &'static str = "matrix_device";

// ----- path segments -----

/// Whether a byte is an ASCII hexadecimal digit.
pub open spec fn is_hex_byte(b: u8) -> bool {
    (0x30 <= b <= 0x39) || (0x41 <= b <= 0x46) || (0x61 <= b <= 0x66)
}

/// The value of an ASCII hexadecimal digit.
pub open spec fn hex_byte_value(b: u8) -> int {
    if 0x30 <= b <= 0x39 {
        b - 0x30
    } else if 0x41 <= b <= 0x46 {
        b - 0x41 + 10
    } else {
        b - 0x61 + 10
    }
}

/// Percent-decoding: each `%` followed by two hexadecimal digits becomes the
/// byte they spell; every other byte, a lone `%` included, stays as it is.
pub open spec fn percent_decoded(b: Seq<u8>) -> Seq<u8>
    decreases b.len(),
{
    if b.len() == 0 {
        Seq::empty()
    } else if b.len() >= 3 && b[0] == 0x25 && is_hex_byte(b[1]) && is_hex_byte(b[2]) {
        seq![(hex_byte_value(b[1]) * 16 + hex_byte_value(b[2])) as u8] + percent_decoded(
            b.skip(3),
        )
    } else {
        seq![b[0]] + percent_decoded(b.skip(1))
    }
}

/// The text a URL path segment decodes to: its percent-decoded bytes read as
/// UTF-8, `None` when they are not valid UTF-8.
pub open spec fn decoded_segment(segment: Seq<char>) -> Option<Seq<char>> {
    let b = percent_decoded(encode_utf8(segment));
    if valid_utf8(b) {
        Some(decode_utf8(b))
    } else {
        None
    }
}

/// The byte a hexadecimal digit spells.
fn hex_value(b: u8) -> (v: u8)
    requires
        is_hex_byte(b),
    ensures
        v == hex_byte_value(b),
        v < 16,
{
    if b <= 0x39 {
        b - 0x30
    } else if b <= 0x46 {
        b - 0x41 + 10
    } else {
        b - 0x61 + 10
    }
}

/// Percent-decodes a byte string.
pub fn percent_decode(b: &[u8]) -> (r: Vec<u8>)
    ensures
        r@ == percent_decoded(b@),
{
    let mut out: Vec<u8> = Vec::new();
    let mut i: usize = 0;
    assert(b@.skip(0) =~= b@);
    while i < b.len()
        invariant
            i <= b.len(),
            out@ + percent_decoded(b@.skip(i as int)) == percent_decoded(b@),
        decreases b.len() - i,
    {
        let ghost rest = b@.skip(i as int);
        if b.len() - i > 2 && b[i] == 0x25 && is_hex(b[i + 1]) && is_hex(b[i + 2]) {
            let v = hex_value(b[i + 1]) * 16 + hex_value(b[i + 2]);
            assert(rest.skip(3) =~= b@.skip(i + 3));
            out.push(v);
            i += 3;
            assert(out@ + percent_decoded(b@.skip(i as int)) =~= percent_decoded(b@));
        } else {
            assert(rest.skip(1) =~= b@.skip(i + 1));
            out.push(b[i]);
            i += 1;
            assert(out@ + percent_decoded(b@.skip(i as int)) =~= percent_decoded(b@));
        }
    }
    assert(percent_decoded(b@.skip(i as int)) =~= Seq::<u8>::empty());
    assert(out@ + Seq::<u8>::empty() =~= out@);
    out
}

/// Whether a byte is an ASCII hexadecimal digit.
fn is_hex(b: u8) -> (r: bool)
    ensures
        r == is_hex_byte(b),
{
    (0x30 <= b && b <= 0x39) || (0x41 <= b && b <= 0x46) || (0x61 <= b && b <= 0x66)
}

/// Reads bytes as UTF-8 with `String::from_utf8`: the text they encode, or
/// `None` when they are not valid UTF-8.
#[verifier::external_body]
fn string_from_utf8(bytes: Vec<u8>) -> (r: Option<String>)
    ensures
        match r {
            Some(s) => valid_utf8(bytes@) && s@ == decode_utf8(bytes@),
            None => !valid_utf8(bytes@),
        },
{
    String::from_utf8(bytes).ok()
}

/// A path segment that is not valid percent-encoded UTF-8.
#[derive(Debug, Clone, PartialEq, Eq)]
pub struct InvalidPathEncoding;

/// Decodes a URL-encoded path segment.
pub fn decode_path_segment(segment: &str) -> (r: Result<String, InvalidPathEncoding>)
    ensures
        match r {
            Ok(s) => decoded_segment(segment@) == Some(s@),
            Err(_) => decoded_segment(segment@) is None,
        },
{
    let decoded = percent_decode(segment.as_bytes());
    match string_from_utf8(decoded) {
        Some(s) => Ok(s),
        None => Err(InvalidPathEncoding),
    }
}

// ----- identifiers and credentials -----

/// Why a Matrix user id was refused.
#[derive(Debug, Clone, PartialEq, Eq)]
pub enum MatrixIdError {
    /// The id has no `:` between user and domain.
    InvalidFormat,
    /// The domain is not the server's.
    DomainMismatch { domain: String, expected: String },
    /// The user part is empty.
    EmptyUsername,
}

/// The user and domain parts of a Matrix user id: the id without a leading
/// `@`, split at its first `:`.
pub open spec fn user_id_parts(input: Seq<char>) -> Option<(Seq<char>, Seq<char>)> {
    let s = if input.len() > 0 && input[0] == '@' {
        input.skip(1)
    } else {
        input
    };
    let i = skip_until(s, 0, ':');
    if i < s.len() {
        Some((s.take(i), s.skip(i + 1)))
    } else {
        None
    }
}

/// Parses and validates a Matrix user id `@user:domain`, returning the user part.
pub fn parse_and_validate_matrix_user_id(user_id_input: &str, expected_domain: &str) -> (r:
    Result<String, MatrixIdError>)
    ensures
        match user_id_parts(user_id_input@) {
            None => r == Err::<String, MatrixIdError>(MatrixIdError::InvalidFormat),
            Some((user, domain)) => if domain != expected_domain@ {
                r matches Err(MatrixIdError::DomainMismatch { domain: d, expected: e }) && d@
                    == domain && e@ == expected_domain@
            } else if user.len() == 0 {
                r == Err::<String, MatrixIdError>(MatrixIdError::EmptyUsername)
            } else {
                r matches Ok(u) && u@ == user
            },
        },
{
    let v = str_chars(user_id_input);
    let start: usize = if v.len() > 0 && v[0] == '@' {
        1
    } else {
        0
    };
    let ghost s = if v@.len() > 0 && v@[0] == '@' {
        v@.skip(1)
    } else {
        v@
    };
    assert(s =~= v@.subrange(start as int, v@.len() as int));
    let i = skip_until_at(&v, start, ':');
    proof {
        lemma_skip_until_shift(v@, start as int, ':');
    }
    if i >= v.len() {
        return Err(MatrixIdError::InvalidFormat);
    }
    assert(s.take(i - start) =~= v@.subrange(start as int, i as int));
    assert(s.skip(i - start + 1) =~= v@.subrange(i + 1, v@.len() as int));
    let domain = chars_string(&v, i + 1, v.len());
    if !str_equal(domain.as_str(), expected_domain) {
        return Err(MatrixIdError::DomainMismatch { domain, expected: expected_domain.to_owned() });
    }
    if i == start {
        return Err(MatrixIdError::EmptyUsername);
    }
    Ok(chars_string(&v, start, i))
}

/// Searching from `start` in `s` finds, relative to `start`, what searching
/// the rest of `s` from its beginning finds.
pub proof fn lemma_skip_until_shift(s: Seq<char>, start: int, c: char)
    requires
        0 <= start <= s.len(),
    ensures
        skip_until(s, start, c) - start == skip_until(s.subrange(start, s.len() as int), 0, c),
{
    lemma_skip_until_shift_at(s, start, start, c);
}

proof fn lemma_skip_until_shift_at(s: Seq<char>, start: int, i: int, c: char)
    requires
        0 <= start <= i <= s.len(),
    ensures
        skip_until(s, i, c) - start == skip_until(
            s.subrange(start, s.len() as int),
            i - start,
            c,
        ),
    decreases s.len() - i,
{
    if i < s.len() {
        lemma_skip_until_shift_at(s, start, i + 1, c);
    }
}

/// The identifier a client is rate limited by: the first address of
/// `X-Forwarded-For`, else `X-Real-IP`, else the first 16 bytes of its token.
pub open spec fn client_identifier(
    forwarded_for: Option<Seq<char>>,
    real_ip: Option<Seq<char>>,
    token: Option<Seq<char>>,
) -> Seq<char> {
    match forwarded_for {
        Some(f) => "ip:"@ + trim(f.take(skip_until(f, 0, ','))),
        None => match real_ip {
            Some(ip) => "ip:"@ + ip,
            None => match token {
                Some(t) => "token:"@ + (if encode_utf8(t).len() > 16 {
                    decode_utf8(encode_utf8(t).subrange(0, 16))
                } else {
                    t
                }),
                None => "unknown"@,
            },
        },
    }
}

/// The optional text of an optional `&str`.
pub open spec fn opt_str(s: Option<&str>) -> Option<Seq<char>> {
    match s {
        Some(t) => Some(t@),
        None => None,
    }
}

/// The client identifier for rate limiting. `forwarded_for` and `real_ip` are
/// the `X-Forwarded-For` and `X-Real-IP` header values that are valid text.
pub fn get_client_identifier(forwarded_for: Option<&str>, real_ip: Option<&str>, token: Option<
    &str,
>) -> (r: String)
    requires
        token matches Some(t) ==> (t.spec_bytes().len() > 16 ==> vstd::utf8::is_char_boundary(
            t.spec_bytes(),
            16,
        )),
    ensures
        r@ == client_identifier(opt_str(forwarded_for), opt_str(real_ip), opt_str(token)),
{
    if let Some(f) = forwarded_for {
        let v = str_chars(f);
        let e = skip_until_at(&v, 0, ',');
        let t = trim_range(&v, 0, e);
        assert(v@.subrange(0, e as int) =~= v@.take(e as int));
        let mut out = "ip:".to_owned();
        push_chars(&mut out, &t, 0, t.len());
        assert(t@.subrange(0, t@.len() as int) =~= t@);
        return out;
    }
    if let Some(ip) = real_ip {
        let v = str_chars(ip);
        let mut out = "ip:".to_owned();
        push_chars(&mut out, &v, 0, v.len());
        assert(v@.subrange(0, v@.len() as int) =~= v@);
        return out;
    }
    if let Some(t) = token {
        let prefix: &str = if t.as_bytes().len() > 16 {
            let (a, _) = t.split_at(16);
            proof {
                encode_utf8_decode_utf8(a@);
                assert(a.spec_bytes() == encode_utf8(a@));
                assert(a.spec_bytes() =~= encode_utf8(t@).subrange(0, 16));
                assert(a@ == decode_utf8(encode_utf8(t@).subrange(0, 16)));
            }
            a
        } else {
            t
        };
        assert(prefix@ == (if encode_utf8(t@).len() > 16 {
            decode_utf8(encode_utf8(t@).subrange(0, 16))
        } else {
            t@
        }));
        let v = str_chars(prefix);
        let mut out = "token:".to_owned();
        push_chars(&mut out, &v, 0, v.len());
        assert(v@.subrange(0, v@.len() as int) =~= v@);
        return out;
    }
    "unknown".to_owned()
}

/// The bearer token of an `Authorization` header value.
pub open spec fn bearer_token(authorization: Option<Seq<char>>) -> Option<Seq<char>> {
    match authorization {
        Some(a) => if is_prefix("Bearer "@, a) {
            Some(a.skip("Bearer "@.len() as int))
        } else {
            None
        },
        None => None,
    }
}

/// The token of an `Authorization: Bearer <token>` header, given the header
/// value when it is valid text.
pub fn get_token_from_request(authorization: Option<&str>) -> (r: Option<String>)
    ensures
        match r {
            Some(t) => bearer_token(opt_str(authorization)) == Some(t@),
            None => bearer_token(opt_str(authorization)) is None,
        },
{
    let a = match authorization {
        Some(a) => a,
        None => return None,
    };
    let v = str_chars(a);
    let p = str_chars("Bearer ");
    if has_prefix(&v, &p) {
        assert(v@.subrange(p.len() as int, v.len() as int) =~= a@.skip("Bearer "@.len() as int));
        Some(chars_string(&v, p.len(), v.len()))
    } else {
        None
    }
}

/// The Matrix domain: the configured one, else the first configured domain,
/// else `localhost`.
pub fn get_matrix_domain(matrix_domain: &Option<String>, domains: &Vec<String>) -> (r: String)
    ensures
        r@ == (match matrix_domain {
            Some(d) => d@,
            None => if domains.len() > 0 {
                domains[0]@
            } else {
                DEFAULT_MATRIX_DOMAIN@
            },
        }),
{
    match matrix_domain {
        Some(d) => d.clone(),
        None => if domains.len() > 0 {
            domains[0].clone()
        } else {
            DEFAULT_MATRIX_DOMAIN.to_owned()
        },
    }
}

/// The body of a rate-limit refusal: its message and `retry_after_ms`.
pub struct RateLimitDetails {
    pub message: String,
    pub retry_after_ms: u64,
}

/// The details of a rate-limit refusal for a client that may retry after
/// `retry_after_secs` seconds.
pub fn rate_limit_details(retry_after_secs: u64) -> (r: RateLimitDetails)
    requires
        retry_after_secs * 1000 <= u64::MAX,
    ensures
        r.message@ == "Too many failed attempts. Retry after "@ + nat_text(retry_after_secs as nat)
            + " seconds"@,
        r.retry_after_ms == retry_after_secs * 1000,
{
    let mut message = "Too many failed attempts. Retry after ".to_owned();
    let digits = format_u64(retry_after_secs);
    push_chars(&mut message, &digits, 0, digits.len());
    assert(digits@.subrange(0, digits@.len() as int) =~= digits@);
    let tail = str_chars(" seconds");
    push_chars(&mut message, &tail, 0, tail.len());
    assert(tail@.subrange(0, tail@.len() as int) =~= tail@);
    RateLimitDetails { message, retry_after_ms: retry_after_secs * 1000 }
}

// ----- rate limiting of failed authentication -----

/// One client's failed attempts. Times are milliseconds of a monotonic clock.
#[derive(Debug, Clone, Copy, PartialEq, Eq)]
pub struct AuthFailureEntry {
    pub count: u32,
    pub first_failure: u64,
    pub blocked_until: Option<u64>,
}

/// The failed authentication attempts of each client, by client identifier.
pub struct AuthFailureCache {
    failures: Vec<(String, AuthFailureEntry)>,
}

/// Whether the entry at `i` of `s` belongs to `key`.
pub open spec fn key_at(s: Seq<(Seq<char>, AuthFailureEntry)>, i: int, key: Seq<char>) -> bool {
    0 <= i < s.len() && s[i].0 == key
}

/// The entry `s` holds for `key`.
pub open spec fn entry_of(s: Seq<(Seq<char>, AuthFailureEntry)>, key: Seq<char>) -> Option<
    AuthFailureEntry,
> {
    if exists|i: int| key_at(s, i, key) {
        Some(s[choose|i: int| key_at(s, i, key)].1)
    } else {
        None
    }
}

/// No key occurs twice in `s`.
pub open spec fn distinct_keys(s: Seq<(Seq<char>, AuthFailureEntry)>) -> bool {
    forall|i: int, j: int| 0 <= i < j < s.len() ==> s[i].0 != s[j].0
}

/// The map of entries by key.
pub open spec fn entries_map(s: Seq<(Seq<char>, AuthFailureEntry)>) -> Map<
    Seq<char>,
    AuthFailureEntry,
> {
    Map::new(|k: Seq<char>| entry_of(s, k) is Some, |k: Seq<char>| entry_of(s, k)->0)
}

/// Whether an entry blocks its client at `now`.
pub open spec fn entry_blocked(e: Option<AuthFailureEntry>, now: u64) -> bool {
    match e {
        Some(x) => match x.blocked_until {
            Some(b) => now < b,
            None => false,
        },
        None => false,
    }
}

/// The whole seconds an entry still blocks its client at `now`, 0 when it does not.
pub open spec fn remaining_secs(e: Option<AuthFailureEntry>, now: u64) -> u64 {
    match e {
        Some(x) => match x.blocked_until {
            Some(b) => if now < b {
                ((b - now) / 1000) as u64
            } else {
                0
            },
            None => 0,
        },
        None => 0,
    }
}

/// A client's entry after a failed attempt at `now`: a count that starts anew
/// when the first failure lies more than the window behind, one more failure,
/// and a block when the count reaches the maximum.
pub open spec fn failure_step(e: Option<AuthFailureEntry>, now: u64) -> AuthFailureEntry {
    let fresh = AuthFailureEntry { count: 0, first_failure: now, blocked_until: None };
    let base = match e {
        Some(x) => x,
        None => fresh,
    };
    let current = if now >= base.first_failure && (now - base.first_failure) / 1000
        > AUTH_FAILURE_WINDOW_SECS {
        fresh
    } else {
        base
    };
    let counted = AuthFailureEntry { count: (current.count + 1) as u32, ..current };
    if counted.count >= MAX_AUTH_FAILURES {
        AuthFailureEntry {
            blocked_until: Some((now + AUTH_BLOCK_DURATION_SECS * 1000) as u64),
            ..counted
        }
    } else {
        counted
    }
}

/// A client's entry after failed attempts at `times`, from no entry.
pub open spec fn after_failures(times: Seq<u64>) -> Option<AuthFailureEntry>
    decreases times.len(),
{
    if times.len() == 0 {
        None
    } else {
        Some(failure_step(after_failures(times.drop_last()), times.last()))
    }
}

/// With distinct keys, the entry of `key` is the one at its index.
proof fn lemma_entry_at(s: Seq<(Seq<char>, AuthFailureEntry)>, i: int, key: Seq<char>)
    requires
        distinct_keys(s),
        key_at(s, i, key),
    ensures
        entry_of(s, key) == Some(s[i].1),
{
    let j = choose|j: int| key_at(s, j, key);
    assert(key_at(s, j, key));
    if j != i {
        if j < i {
            assert(s[j].0 != s[i].0);
        } else {
            assert(s[i].0 != s[j].0);
        }
    }
}

impl View for AuthFailureCache {
    type V = Map<Seq<char>, AuthFailureEntry>;

    closed spec fn view(&self) -> Map<Seq<char>, AuthFailureEntry> {
        entries_map(self.seq())
    }
}

impl AuthFailureCache {
    /// The entries with their keys as text.
    closed spec fn seq(&self) -> Seq<(Seq<char>, AuthFailureEntry)> {
        self.failures@.map_values(|e: (String, AuthFailureEntry)| (e.0@, e.1))
    }

    /// Each client has at most one entry.
    pub closed spec fn wf(&self) -> bool {
        distinct_keys(self.seq())
    }

    /// An empty cache.
    pub fn new() -> (c: Self)
        ensures
            c.wf(),
            c@ == Map::<Seq<char>, AuthFailureEntry>::empty(),
    {
        let c = AuthFailureCache { failures: Vec::new() };
        assert(c@ =~= Map::<Seq<char>, AuthFailureEntry>::empty());
        c
    }

    /// The index of the entry of `key`.
    fn find(&self, key: &str) -> (r: Option<usize>)
        requires
            self.wf(),
        ensures
            match r {
                Some(i) => key_at(self.seq(), i as int, key@),
                None => !exists|i: int| key_at(self.seq(), i, key@),
            },
    {
        let mut i: usize = 0;
        while i < self.failures.len()
            invariant
                i <= self.failures.len(),
                forall|j: int| 0 <= j < i ==> !key_at(self.seq(), j, key@),
            decreases self.failures.len() - i,
        {
            if str_equal(self.failures[i].0.as_str(), key) {
                return Some(i);
            }
            i += 1;
        }
        None
    }

    /// The entry of `key`.
    fn entry(&self, key: &str) -> (r: Option<AuthFailureEntry>)
        requires
            self.wf(),
        ensures
            r == self@.get(key@),
    {
        match self.find(key) {
            Some(i) => {
                proof {
                    lemma_entry_at(self.seq(), i as int, key@);
                }
                Some(self.failures[i].1)
            },
            None => {
                assert(entry_of(self.seq(), key@) is None);
                None
            },
        }
    }

    /// The entry of `key`, if the client has failed before.
    pub fn failure_entry(&self, key: &str) -> (r: Option<AuthFailureEntry>)
        requires
            self.wf(),
        ensures
            r == self@.get(key@),
    {
        self.entry(key)
    }

    /// Whether the client is blocked at `now` because of too many failures.
    pub fn is_blocked(&self, key: &str, now: u64) -> (b: bool)
        requires
            self.wf(),
        ensures
            b == entry_blocked(self@.get(key@), now),
    {
        match self.entry(key) {
            Some(e) => match e.blocked_until {
                Some(until) => now < until,
                None => false,
            },
            None => false,
        }
    }

    /// The whole seconds the client still stays blocked at `now`, 0 when it is
    /// not blocked.
    pub fn remaining_block_time(&self, key: &str, now: u64) -> (secs: u64)
        requires
            self.wf(),
        ensures
            secs == remaining_secs(self@.get(key@), now),
    {
        match self.entry(key) {
            Some(e) => match e.blocked_until {
                Some(until) => if now < until {
                    (until - now) / 1000
                } else {
                    0
                },
                None => 0,
            },
            None => 0,
        }
    }

    /// Records a failed attempt of the client at `now`.
    pub fn record_failure(&mut self, key: &str, now: u64)
        requires
            old(self).wf(),
            now + AUTH_BLOCK_DURATION_SECS * 1000 <= u64::MAX,
            old(self)@.get(key@) matches Some(e) ==> e.count < u32::MAX,
        ensures
            final(self).wf(),
            final(self)@ == old(self)@.insert(key@, failure_step(old(self)@.get(key@), now)),
    {
        let old_entry = self.entry(key);
        let fresh = AuthFailureEntry { count: 0, first_failure: now, blocked_until: None };
        let base = match old_entry {
            Some(x) => x,
            None => fresh,
        };
        let current = if now >= base.first_failure && (now - base.first_failure) / 1000
            > AUTH_FAILURE_WINDOW_SECS {
            fresh
        } else {
            base
        };
        let counted = AuthFailureEntry { count: current.count + 1, ..current };
        let next = if counted.count >= MAX_AUTH_FAILURES {
            AuthFailureEntry {
                blocked_until: Some(now + AUTH_BLOCK_DURATION_SECS * 1000),
                ..counted
            }
        } else {
            counted
        };
        assert(next == failure_step(old(self)@.get(key@), now));
        let ghost s0 = self.seq();
        match self.find(key) {
            Some(i) => {
                let k = self.failures[i].0.clone();
                self.failures.set(i, (k, next));
                let ghost s1 = self.seq();
                assert(s1 =~= s0.update(i as int, (key@, next)));
                assert(distinct_keys(s1)) by {
                    assert forall|a: int, b: int| 0 <= a < b < s1.len() implies s1[a].0 != s1[b].0 by {
                        assert(s0[a].0 != s0[b].0);
                    }
                }
                assert forall|k2: Seq<char>| entry_of(s1, k2) == (if k2 == key@ {
                    Some(next)
                } else {
                    entry_of(s0, k2)
                }) by {
                    if k2 == key@ {
                        lemma_entry_at(s1, i as int, k2);
                    } else if exists|j: int| key_at(s0, j, k2) {
                        let j = choose|j: int| key_at(s0, j, k2);
                        lemma_entry_at(s0, j, k2);
                        lemma_entry_at(s1, j, k2);
                    } else {
                        assert forall|j: int| !key_at(s1, j, k2) by {
                            if key_at(s1, j, k2) {
                                assert(key_at(s0, j, k2));
                            }
                        }
                    }
                }
                assert(self@ =~= old(self)@.insert(key@, next));
            },
            None => {
                self.failures.push((key.to_owned(), next));
                let ghost s1 = self.seq();
                assert(s1 =~= s0.push((key@, next)));
                assert(distinct_keys(s1)) by {
                    assert forall|a: int, b: int| 0 <= a < b < s1.len() implies s1[a].0 != s1[b].0 by {
                        if b < s0.len() {
                            assert(s0[a].0 != s0[b].0);
                        } else {
                            assert(!key_at(s0, a, key@));
                        }
                    }
                }
                assert forall|k2: Seq<char>| entry_of(s1, k2) == (if k2 == key@ {
                    Some(next)
                } else {
                    entry_of(s0, k2)
                }) by {
                    if k2 == key@ {
                        lemma_entry_at(s1, s0.len() as int, k2);
                    } else if exists|j: int| key_at(s0, j, k2) {
                        let j = choose|j: int| key_at(s0, j, k2);
                        lemma_entry_at(s0, j, k2);
                        lemma_entry_at(s1, j, k2);
                    } else {
                        assert forall|j: int| !key_at(s1, j, k2) by {
                            if key_at(s1, j, k2) {
                                assert(key_at(s0, j, k2));
                            }
                        }
                    }
                }
                assert(self@ =~= old(self)@.insert(key@, next));
            },
        }
    }

    /// Forgets the client's failures, after a successful authentication.
    pub fn clear_failures(&mut self, key: &str)
        requires
            old(self).wf(),
        ensures
            final(self).wf(),
            final(self)@ == old(self)@.remove(key@),
    {
        let ghost s0 = self.seq();
        match self.find(key) {
            Some(i) => {
                self.failures.remove(i);
                let ghost s1 = self.seq();
                assert(s1 =~= s0.remove(i as int));
                assert(distinct_keys(s1)) by {
                    assert forall|a: int, b: int| 0 <= a < b < s1.len() implies s1[a].0 != s1[b].0 by {
                        let a0 = if a < i { a } else { a + 1 };
                        let b0 = if b < i { b } else { b + 1 };
                        assert(s0[a0].0 != s0[b0].0);
                    }
                }
                assert forall|k2: Seq<char>| entry_of(s1, k2) == (if k2 == key@ {
                    None
                } else {
                    entry_of(s0, k2)
                }) by {
                    if k2 == key@ {
                        assert forall|j: int| !key_at(s1, j, k2) by {
                            if key_at(s1, j, k2) {
                                let j0 = if j < i { j } else { j + 1 };
                                if j0 < i {
                                    assert(s0[j0].0 != s0[i as int].0);
                                } else {
                                    assert(s0[i as int].0 != s0[j0].0);
                                }
                            }
                        }
                    } else if exists|j: int| key_at(s0, j, k2) {
                        let j = choose|j: int| key_at(s0, j, k2);
                        lemma_entry_at(s0, j, k2);
                        let j1 = if j < i { j } else { j - 1 };
                        lemma_entry_at(s1, j1, k2);
                    } else {
                        assert forall|j: int| !key_at(s1, j, k2) by {
                            if key_at(s1, j, k2) {
                                let j0 = if j < i { j } else { j + 1 };
                                assert(key_at(s0, j0, k2));
                            }
                        }
                    }
                }
                assert(self@ =~= old(self)@.remove(key@));
            },
            None => {
                assert(self@ =~= old(self)@.remove(key@));
            },
        }
    }
}

/// `MAX_AUTH_FAILURES` failed attempts of one client, each at or after the one
/// before and all within the window of the first, block the client at the last.
pub proof fn lemma_max_failures_block(times: Seq<u64>)
    requires
        times.len() == MAX_AUTH_FAILURES,
        forall|i: int, j: int| 0 <= i <= j < times.len() ==> times[i] <= times[j],
        (times[4] - times[0]) / 1000 <= AUTH_FAILURE_WINDOW_SECS,
        times[4] + AUTH_BLOCK_DURATION_SECS * 1000 <= u64::MAX,
    ensures
        entry_blocked(after_failures(times), times[4]),
        remaining_secs(after_failures(times), times[4]) == AUTH_BLOCK_DURATION_SECS,
{
    let t0 = times[0];
    assert forall|k: int| 1 <= k <= 4 implies (times[k] - t0) / 1000 <= AUTH_FAILURE_WINDOW_SECS by {
        assert(times[k] <= times[4]);
        assert(times[k] - t0 <= times[4] - t0);
        vstd::arithmetic::div_mod::lemma_div_is_ordered((times[k] - t0) as int, (times[4] - t0) as int, 1000);
    }
    let s1 = times.take(1);
    let s2 = times.take(2);
    let s3 = times.take(3);
    let s4 = times.take(4);
    assert(s1.drop_last() =~= Seq::<u64>::empty());
    assert(s2.drop_last() =~= s1);
    assert(s3.drop_last() =~= s2);
    assert(s4.drop_last() =~= s3);
    assert(times.drop_last() =~= s4);
    assert(after_failures(Seq::<u64>::empty()) is None);
    assert(s1.last() == t0);
    assert(s2.last() == times[1]);
    assert(s3.last() == times[2]);
    assert(s4.last() == times[3]);
    let e1 = after_failures(s1);
    assert(e1 == Some(AuthFailureEntry { count: 1, first_failure: t0, blocked_until: None }));
    let e2 = after_failures(s2);
    assert(e2 == Some(AuthFailureEntry { count: 2, first_failure: t0, blocked_until: None }));
    let e3 = after_failures(s3);
    assert(e3 == Some(AuthFailureEntry { count: 3, first_failure: t0, blocked_until: None }));
    let e4 = after_failures(s4);
    assert(e4 == Some(AuthFailureEntry { count: 4, first_failure: t0, blocked_until: None }));
    assert(after_failures(times) == Some(
        AuthFailureEntry {
            count: 5,
            first_failure: t0,
            blocked_until: Some((times[4] + AUTH_BLOCK_DURATION_SECS * 1000) as u64),
        },
    ));
}

/// A client with time still to wait is a blocked client.
pub proof fn lemma_remaining_means_blocked(e: Option<AuthFailureEntry>, now: u64)
    ensures
        remaining_secs(e, now) > 0 ==> entry_blocked(e, now),
{
}

/// Once its failures are cleared, a client is not blocked, whatever the time.
pub proof fn lemma_cleared_not_blocked(m: Map<Seq<char>, AuthFailureEntry>, key: Seq<char>, now: u64)
    ensures
        !entry_blocked(m.remove(key).get(key), now),
{
}

/// The failure map after failed attempts of client `key` at `times`, one
/// after the other, as `record_failure` makes them.
pub open spec fn failures_applied(
    m: Map<Seq<char>, AuthFailureEntry>,
    key: Seq<char>,
    times: Seq<u64>,
) -> Map<Seq<char>, AuthFailureEntry>
    decreases times.len(),
{
    if times.len() == 0 {
        m
    } else {
        let prev = failures_applied(m, key, times.drop_last());
        prev.insert(key, failure_step(prev.get(key), times.last()))
    }
}

/// From no entry, failures of `key` give its entry as `after_failures`
/// counts them, and leave the other clients as they were.
proof fn lemma_failures_applied(m: Map<Seq<char>, AuthFailureEntry>, key: Seq<char>, times: Seq<u64>)
    requires
        m.get(key) is None,
    ensures
        failures_applied(m, key, times).get(key) == after_failures(times),
        forall|k2: Seq<char>|
            k2 != key ==> #[trigger] failures_applied(m, key, times).get(k2) == m.get(k2),
    decreases times.len(),
{
    if times.len() > 0 {
        lemma_failures_applied(m, key, times.drop_last());
        let prev = failures_applied(m, key, times.drop_last());
        assert forall|k2: Seq<char>| k2 != key implies #[trigger] failures_applied(m, key, times).get(k2) == m.get(k2) by {
            assert(failures_applied(m, key, times) == prev.insert(key, failure_step(prev.get(key), times.last())));
            assert(prev.insert(key, failure_step(prev.get(key), times.last())).get(k2) == prev.get(k2));
        }
    }
}

/// From no entry, a client's count never exceeds its failures, and it is
/// blocked only with at least `MAX_AUTH_FAILURES` failures counted.
proof fn lemma_failures_counted(times: Seq<u64>)
    requires
        times.len() < u32::MAX,
    ensures
        times.len() > 0 ==> after_failures(times) is Some,
        after_failures(times) matches Some(e) ==> e.count <= times.len() && (e.blocked_until is Some
            ==> e.count >= MAX_AUTH_FAILURES),
        times.len() == 0 ==> after_failures(times) is None,
    decreases times.len(),
{
    if times.len() > 0 {
        lemma_failures_counted(times.drop_last());
    }
}

/// Failures each at or after the one before and all within the window of
/// the first are counted one by one from the first; the entry is blocked
/// from the fifth on, until the block duration after the last.
proof fn lemma_failures_in_window_entry(times: Seq<u64>)
    requires
        0 < times.len() < u32::MAX,
        forall|i: int, j: int| 0 <= i <= j < times.len() ==> times[i] <= times[j],
        forall|i: int| 0 <= i < times.len() ==> (#[trigger] times[i] - times[0]) / 1000 <= AUTH_FAILURE_WINDOW_SECS,
        times.last() + AUTH_BLOCK_DURATION_SECS * 1000 <= u64::MAX,
    ensures
        after_failures(times) == Some(
            AuthFailureEntry {
                count: times.len() as u32,
                first_failure: times[0],
                blocked_until: if times.len() >= MAX_AUTH_FAILURES {
                    Some((times.last() + AUTH_BLOCK_DURATION_SECS * 1000) as u64)
                } else {
                    None
                },
            },
        ),
    decreases times.len(),
{
    if times.len() > 1 {
        let d = times.drop_last();
        assert(d.last() == times[times.len() - 2]);
        assert(d.last() <= times.last());
        assert forall|i: int| 0 <= i < d.len() implies (#[trigger] d[i] - d[0]) / 1000 <= AUTH_FAILURE_WINDOW_SECS by {
            assert(d[i] == times[i]);
        }
        lemma_failures_in_window_entry(d);
        assert(times.last() == times[times.len() - 1]);
        assert(times[0] <= times.last());
        assert(d[0] == times[0]);
        assert((times.last() - times[0]) / 1000 <= AUTH_FAILURE_WINDOW_SECS);
        assert(d.last() + AUTH_BLOCK_DURATION_SECS * 1000 <= u64::MAX);
        let prev = after_failures(d);
        assert(after_failures(times) == Some(failure_step(prev, times.last())));
    } else {
        assert(times.drop_last() =~= Seq::<u64>::empty());
        assert(after_failures(times.drop_last()) is None);
        assert(times.last() == times[0]);
    }
}

/// A client with no entry that fails `n` times, each at or after the one
/// before and all within the window of the first, is blocked at a time
/// within the block duration after its last failure exactly when `n` is at
/// least `MAX_AUTH_FAILURES`; it never waits more than the block duration, it
/// has nothing to wait when it is not blocked, and other clients are
/// untouched.
pub proof fn lemma_failures_in_window(
    m: Map<Seq<char>, AuthFailureEntry>,
    key: Seq<char>,
    times: Seq<u64>,
    now: u64,
)
    requires
        m.get(key) is None,
        0 < times.len() < u32::MAX,
        forall|i: int, j: int| 0 <= i <= j < times.len() ==> times[i] <= times[j],
        forall|i: int| 0 <= i < times.len() ==> (#[trigger] times[i] - times[0]) / 1000 <= AUTH_FAILURE_WINDOW_SECS,
        times.last() + AUTH_BLOCK_DURATION_SECS * 1000 <= u64::MAX,
        times.last() <= now < times.last() + AUTH_BLOCK_DURATION_SECS * 1000,
    ensures
        ({
            let after = failures_applied(m, key, times);
            &&& entry_blocked(after.get(key), now) <==> times.len() >= MAX_AUTH_FAILURES
            &&& remaining_secs(after.get(key), now) <= AUTH_BLOCK_DURATION_SECS
            &&& !entry_blocked(after.get(key), now) ==> remaining_secs(after.get(key), now) == 0
            &&& forall|k2: Seq<char>| k2 != key ==> #[trigger] after.get(k2) == m.get(k2)
        }),
{
    lemma_failures_applied(m, key, times);
    lemma_failures_in_window_entry(times);
    let b = times.last() + AUTH_BLOCK_DURATION_SECS * 1000;
    assert((b - now) / 1000 <= AUTH_BLOCK_DURATION_SECS) by {
        vstd::arithmetic::div_mod::lemma_div_is_ordered(
            (b - now) as int,
            (AUTH_BLOCK_DURATION_SECS * 1000) as int,
            1000,
        );
    }
}

/// A failure more than the window after the first failure counted starts a
/// new count at one, with no block.
pub proof fn lemma_failure_after_window_resets(e: Option<AuthFailureEntry>, now: u64)
    requires
        e matches Some(x) && now >= x.first_failure && (now - x.first_failure) / 1000
            > AUTH_FAILURE_WINDOW_SECS,
    ensures
        failure_step(e, now) == (AuthFailureEntry { count: 1, first_failure: now, blocked_until: None }),
        !entry_blocked(Some(failure_step(e, now)), now),
{
}

/// After its failures are cleared, up to four more failures of a client, at
/// any times, leave it unblocked with nothing to wait; other clients are as
/// they were before.
pub proof fn lemma_cleared_then_four_failures(
    m: Map<Seq<char>, AuthFailureEntry>,
    key: Seq<char>,
    times: Seq<u64>,
    now: u64,
)
    requires
        times.len() < MAX_AUTH_FAILURES,
    ensures
        ({
            let after = failures_applied(m.remove(key), key, times);
            &&& !entry_blocked(after.get(key), now)
            &&& remaining_secs(after.get(key), now) == 0
            &&& forall|k2: Seq<char>| k2 != key ==> #[trigger] after.get(k2) == m.get(k2)
        }),
{
    lemma_failures_applied(m.remove(key), key, times);
    lemma_failures_counted(times);
    assert forall|k2: Seq<char>| k2 != key implies #[trigger] failures_applied(m.remove(key), key, times).get(k2) == m.get(k2) by {
        assert(failures_applied(m.remove(key), key, times).get(k2) == m.remove(key).get(k2));
    }
}

// ----- Matrix login -----

/// A Matrix login request.
#[derive(Debug, Clone)]
pub struct LoginRequest {
    /// The login type, `m.login.password`.
    pub login_type: String,
    /// The user identifier (new form).
    pub identifier: Option<LoginIdentifier>,
    /// The user name (old form).
    pub user: Option<String>,
    pub password: String,
    /// The device; without one the default device is used.
    pub device_id: Option<String>,
}

/// A Matrix login identifier.
#[derive(Debug, Clone)]
pub struct LoginIdentifier {
    /// The identifier type, `m.id.user`.
    pub id_type: String,
    pub user: String,
}

/// A Matrix login response.
#[derive(Debug, Clone)]
pub struct LoginResponse {
    pub access_token: String,
    pub user_id: String,
    pub device_id: String,
}

/// What a successful login does with the device.
#[derive(Debug, Clone, Copy, PartialEq, Eq)]
pub enum DeviceAction {
    /// The device exists: its key is replaced.
    UpdateKey,
    /// The device is new: a key and its encryption account are created.
    CreateDevice,
}

/// A successful Matrix login: the bot, its Matrix id, its device and what
/// becomes of the device.
#[derive(Debug, Clone)]
pub struct MatrixLoginPlan {
    pub uid: i64,
    pub user_id: String,
    pub device_id: String,
    pub action: DeviceAction,
}

/// Why a Matrix login was refused.
#[derive(Debug, Clone, PartialEq, Eq)]
pub enum MatrixLoginError {
    InvalidLoginType,
    InvalidIdentifierType,
    MissingUserIdentifier,
    InvalidUserId(MatrixIdError),
    /// The client is blocked for this many more seconds.
    RateLimited { retry_after_secs: u64 },
    /// No such bot, or a wrong password.
    Forbidden,
}

/// The user id a login names: the old form first, else an `m.id.user`
/// identifier.
pub open spec fn login_user_input(req: LoginRequest) -> Result<Seq<char>, MatrixLoginError> {
    match req.user {
        Some(u) => Ok(u@),
        None => match req.identifier {
            Some(id) => if id.id_type@ == "m.id.user"@ {
                Ok(id.user@)
            } else {
                Err(MatrixLoginError::InvalidIdentifierType)
            },
            None => Err(MatrixLoginError::MissingUserIdentifier),
        },
    }
}

/// Whether the password of a login matches the stored hash of the user.
pub open spec fn password_matches(stored: Option<String>, password: Seq<char>, server_key: Seq<char>) -> bool {
    match stored {
        Some(h) => password_hash(password, server_key) == h@,
        None => false,
    }
}

impl LoginRequest {
    /// The device of the login, the default device when none is named.
    pub fn device(&self) -> (d: String)
        ensures
            d@ == (match self.device_id {
                Some(x) => x@,
                None => DEFAULT_DEVICE_ID@,
            }),
    {
        match &self.device_id {
            Some(x) => x.clone(),
            None => DEFAULT_DEVICE_ID.to_owned(),
        }
    }
}

/// Decides a Matrix login of a bot: the request's form, the user id, the rate
/// limit of the client, the bot and its password, then its device. A refused
/// bot or password counts as a failure of the client; a success clears its
/// failures.
pub fn login_decision(
    req: &LoginRequest,
    matrix_domain: &str,
    cache: &Cache,
    server_key: &str,
    failures: &mut AuthFailureCache,
    client_id: &str,
    now: u64,
) -> (r: Result<MatrixLoginPlan, MatrixLoginError>)
    requires
        old(failures).wf(),
        now + AUTH_BLOCK_DURATION_SECS * 1000 <= u64::MAX,
        old(failures)@.get(client_id@) matches Some(e) ==> e.count < u32::MAX,
    ensures
        final(failures).wf(),
        req.login_type@ != "m.login.password"@ ==> r == Err::<MatrixLoginPlan, MatrixLoginError>(
            MatrixLoginError::InvalidLoginType) && final(failures)@ == old(failures)@,
        req.login_type@ == "m.login.password"@ ==> match login_user_input(*req) {
            Err(e) => r == Err::<MatrixLoginPlan, MatrixLoginError>(e) && final(failures)@ == old(
                failures,
            )@,
            Ok(input) => match user_id_parts(input) {
                None => r == Err::<MatrixLoginPlan, MatrixLoginError>(
                    MatrixLoginError::InvalidUserId(MatrixIdError::InvalidFormat),
                ) && final(failures)@ == old(failures)@,
                Some((user, domain)) => if domain != matrix_domain@ || user.len() == 0 {
                    r matches Err(MatrixLoginError::InvalidUserId(_)) && final(failures)@ == old(
                        failures,
                    )@
                } else if entry_blocked(old(failures)@.get(client_id@), now) {
                    r == Err::<MatrixLoginPlan, MatrixLoginError>(
                        MatrixLoginError::RateLimited {
                            retry_after_secs: remaining_secs(old(failures)@.get(client_id@), now),
                        },
                    ) && final(failures)@ == old(failures)@
                } else {
                    exists|found: Option<i64>|
                        {
                            &&& #[trigger] first_bot_named(cache.users@, user, found)
                            &&& match found {
                                None => r == Err::<MatrixLoginPlan, MatrixLoginError>(
                                    MatrixLoginError::Forbidden,
                                ) && final(failures)@ == old(failures)@.insert(
                                    client_id@,
                                    failure_step(old(failures)@.get(client_id@), now),
                                ),
                                Some(uid) => if !password_matches(
                                    cache.users@[uid].password,
                                    req.password@,
                                    server_key@,
                                ) {
                                    r == Err::<MatrixLoginPlan, MatrixLoginError>(
                                        MatrixLoginError::Forbidden,
                                    ) && final(failures)@ == old(failures)@.insert(
                                        client_id@,
                                        failure_step(old(failures)@.get(client_id@), now),
                                    )
                                } else {
                                    &&& final(failures)@ == old(failures)@.remove(client_id@)
                                    &&& r matches Ok(plan)
                                    &&& plan.uid == uid
                                    &&& plan.user_id@ == "@"@ + user + ":"@ + matrix_domain@
                                    &&& plan.device_id@ == (match req.device_id {
                                        Some(x) => x@,
                                        None => DEFAULT_DEVICE_ID@,
                                    })
                                    &&& plan.action == (if has_key_named(
                                        cache.users@[uid].bot_keys@,
                                        plan.device_id@,
                                    ) {
                                        DeviceAction::UpdateKey
                                    } else {
                                        DeviceAction::CreateDevice
                                    })
                                },
                            }
                        }
                },
            },
        },
{
    if !str_equal(req.login_type.as_str(), "m.login.password") {
        return Err(MatrixLoginError::InvalidLoginType);
    }
    let input: &String = match &req.user {
        Some(u) => u,
        None => match &req.identifier {
            Some(id) => {
                if !str_equal(id.id_type.as_str(), "m.id.user") {
                    return Err(MatrixLoginError::InvalidIdentifierType);
                }
                &id.user
            },
            None => return Err(MatrixLoginError::MissingUserIdentifier),
        },
    };
    let username = match parse_and_validate_matrix_user_id(input.as_str(), matrix_domain) {
        Ok(u) => u,
        Err(e) => return Err(MatrixLoginError::InvalidUserId(e)),
    };
    if failures.is_blocked(client_id, now) {
        let remaining = failures.remaining_block_time(client_id, now);
        return Err(MatrixLoginError::RateLimited { retry_after_secs: remaining });
    }
    let found = cache.find_bot_by_name(username.as_str());
    let uid = match found {
        Some(uid) => uid,
        None => {
            failures.record_failure(client_id, now);
            return Err(MatrixLoginError::Forbidden);
        },
    };
    let bot = match cache.users.get(&uid) {
        Some(b) => b,
        None => {
            failures.record_failure(client_id, now);
            return Err(MatrixLoginError::Forbidden);
        },
    };
    let valid = match &bot.password {
        Some(h) => verify_password(req.password.as_str(), server_key, h.as_str()),
        None => false,
    };
    if !valid {
        failures.record_failure(client_id, now);
        return Err(MatrixLoginError::Forbidden);
    }
    failures.clear_failures(client_id);
    let mut user_id = "@".to_owned();
    let uv = str_chars(username.as_str());
    push_chars(&mut user_id, &uv, 0, uv.len());
    let colon = str_chars(":");
    push_chars(&mut user_id, &colon, 0, colon.len());
    let dv = str_chars(matrix_domain);
    push_chars(&mut user_id, &dv, 0, dv.len());
    assert(uv@.subrange(0, uv@.len() as int) =~= uv@);
    assert(colon@.subrange(0, colon@.len() as int) =~= colon@);
    assert(dv@.subrange(0, dv@.len() as int) =~= dv@);
    let device_id = req.device();
    let action = if bot.has_bot_key_named(device_id.as_str()) {
        DeviceAction::UpdateKey
    } else {
        DeviceAction::CreateDevice
    };
    Ok(MatrixLoginPlan { uid, user_id, device_id, action })
}

/// Why an access token was refused.
#[derive(Debug, Clone, Copy, PartialEq, Eq)]
pub enum TokenError {
    /// The client is blocked for this many more seconds.
    RateLimited { retry_after_secs: u64 },
    /// No user holds the token.
    UnknownToken,
}

/// Validates an access token of client `client_id` at `now`: a blocked client
/// is refused; else the smallest id of a user holding the token is the
/// answer, and the client's failures are cleared; an unknown token counts as
/// a failure.
pub fn validate_token_core(
    cache: &Cache,
    token: &str,
    failures: &mut AuthFailureCache,
    client_id: &str,
    now: u64,
) -> (r: Result<i64, TokenError>)
    requires
        old(failures).wf(),
        now + AUTH_BLOCK_DURATION_SECS * 1000 <= u64::MAX,
        old(failures)@.get(client_id@) matches Some(e) ==> e.count < u32::MAX,
    ensures
        final(failures).wf(),
        entry_blocked(old(failures)@.get(client_id@), now) ==> r == Err::<i64, TokenError>(
            TokenError::RateLimited {
                retry_after_secs: remaining_secs(old(failures)@.get(client_id@), now),
            },
        ) && final(failures)@ == old(failures)@,
        !entry_blocked(old(failures)@.get(client_id@), now) ==> match r {
            Ok(uid) => first_user(cache.users@, |u: CacheUser| holds_key(u, token@), Some(uid))
                && final(failures)@ == old(failures)@.remove(client_id@),
            Err(e) => e == TokenError::UnknownToken && first_user(
                cache.users@,
                |u: CacheUser| holds_key(u, token@),
                None,
            ) && final(failures)@ == old(failures)@.insert(
                client_id@,
                failure_step(old(failures)@.get(client_id@), now),
            ),
        },
{
    if failures.is_blocked(client_id, now) {
        let remaining = failures.remaining_block_time(client_id, now);
        return Err(TokenError::RateLimited { retry_after_secs: remaining });
    }
    match cache.find_user_by_bot_key(token) {
        Some(uid) => {
            failures.clear_failures(client_id);
            Ok(uid)
        },
        None => {
            failures.record_failure(client_id, now);
            Err(TokenError::UnknownToken)
        },
    }
}

} // verus!
