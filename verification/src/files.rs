//! The expiry of the dated directories `<year>/<month>/<day>` that hold
//! stored files, thumbnails and archived messages.

use crate::num::{int_of_text, parse_i64};
use crate::text::str_chars;
use vstd::prelude::*;

verus! {

/// What `str::parse::<i32>` gives for `s`.
pub open spec fn parse_i32_spec(s: Seq<char>) -> Option<i32> {
    match int_of_text(s) {
        Some(n) => if i32::MIN <= n <= i32::MAX {
            Some(n as i32)
        } else {
            None
        },
        None => None,
    }
}

/// What `str::parse::<u32>` gives for `s`: no `-` sign is read.
pub open spec fn parse_u32_spec(s: Seq<char>) -> Option<u32> {
    if s.len() > 0 && s[0] == '-' {
        None
    } else {
        match int_of_text(s) {
            Some(n) => if 0 <= n <= u32::MAX {
                Some(n as u32)
            } else {
                None
            },
            None => None,
        }
    }
}

/// The date a directory path relative to the root names: exactly three
/// components, a year, a month and a day.
pub open spec fn dir_date(parts: Seq<Seq<char>>) -> Option<(i32, u32, u32)> {
    if parts.len() != 3 {
        None
    } else {
        match (parse_i32_spec(parts[0]), parse_u32_spec(parts[1]), parse_u32_spec(parts[2])) {
            (Some(y), Some(m), Some(d)) => Some((y, m, d)),
            _ => None,
        }
    }
}

/// The number of days from the date `date` to the date `now` as
/// `chrono::NaiveDate::signed_duration_since(..).num_days()` counts them,
/// `None` when either is not a valid date for `NaiveDate::from_ymd_opt`.
pub uninterp spec fn days_between(now: (i32, u32, u32), date: (i32, u32, u32)) -> Option<i64>;

/// Counts the days from `date` to `now` with `chrono`.
#[verifier::external_body]
fn date_days_between(now: (i32, u32, u32), date: (i32, u32, u32)) -> (r: Option<i64>)
    ensures
        r == days_between(now, date),
{
    let a = chrono::NaiveDate::from_ymd_opt(now.0, now.1, now.2);
    let b = chrono::NaiveDate::from_ymd_opt(date.0, date.1, date.2);
    match (a, b) {
        (Some(a), Some(b)) => Some(a.signed_duration_since(b).num_days()),
        _ => None,
    }
}

/// Whether a dated directory is expired, given the days counted from its
/// date to now (`None` for no valid date): more than `expiry_days` days.
pub fn expired_after(days: Option<i64>, expiry_days: i64) -> (b: bool)
    ensures
        b == (days matches Some(n) && n > expiry_days),
{
    match days {
        Some(n) => n > expiry_days,
        None => false,
    }
}

/// Parses an `i32`.
fn parse_i32(s: &str) -> (r: Option<i32>)
    ensures
        r == parse_i32_spec(s@),
{
    match parse_i64(s) {
        Some(n) => if i32::MIN as i64 <= n && n <= i32::MAX as i64 {
            Some(n as i32)
        } else {
            None
        },
        None => None,
    }
}

/// Parses a `u32`.
fn parse_u32(s: &str) -> (r: Option<u32>)
    ensures
        r == parse_u32_spec(s@),
{
    let v = str_chars(s);
    if v.len() > 0 && v[0] == '-' {
        return None;
    }
    match parse_i64(s) {
        Some(n) => if 0 <= n && n <= u32::MAX as i64 {
            Some(n as u32)
        } else {
            None
        },
        None => None,
    }
}

/// The date a directory path names, by its components.
pub fn dated_dir(parts: &Vec<String>) -> (r: Option<(i32, u32, u32)>)
    ensures
        r == dir_date(parts@.map_values(|p: String| p@)),
{
    if parts.len() != 3 {
        return None;
    }
    let y = parse_i32(parts[0].as_str());
    let m = parse_u32(parts[1].as_str());
    let d = parse_u32(parts[2].as_str());
    match (y, m, d) {
        (Some(y), Some(m), Some(d)) => Some((y, m, d)),
        _ => None,
    }
}

/// Whether the directory with the path components `parts` (relative to the
/// root of the stored files) is to be removed on the date `now`: it names a
/// valid date more than `expiry_days` days before `now`.
pub fn expired_dir(parts: &Vec<String>, now: (i32, u32, u32), expiry_days: i64) -> (b: bool)
    ensures
        b == (match dir_date(parts@.map_values(|p: String| p@)) {
            Some(date) => days_between(now, date) matches Some(n) && n > expiry_days,
            None => false,
        }),
{
    match dated_dir(parts) {
        Some(date) => expired_after(date_days_between(now, date), expiry_days),
        None => false,
    }
}

} // verus!
