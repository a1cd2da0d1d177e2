//! Creation timestamps and their fixed textual standard.
//!
//! A snapshot's creation time is captured once, at creation, and is kept
//! and persisted in its RFC 3339 textual form. The library validates
//! that form itself: a well-formed timestamp is a calendar date, a
//! clock time with an optional fraction, and an offset.

use vstd::prelude::*;

use crate::strutil::chars_of;

verus! {

broadcast use vstd::std_specs::vec::axiom_spec_len;

pub open spec fn is_digit(c: char) -> bool {
    '0' <= c && c <= '9'
}

/// The numeric value of a decimal digit.
pub open spec fn digit_val(c: char) -> int {
    c as int - '0' as int
}

/// The value of the two digits at `i`.
pub open spec fn num2(s: Seq<char>, i: int) -> int {
    10 * digit_val(s[i]) + digit_val(s[i + 1])
}

/// The value of the four digits at `i`.
pub open spec fn num4(s: Seq<char>, i: int) -> int {
    1000 * digit_val(s[i]) + 100 * digit_val(s[i + 1]) + 10 * digit_val(s[i + 2]) + digit_val(
        s[i + 3],
    )
}

pub open spec fn is_leap_year(y: int) -> bool {
    y % 4 == 0 && (y % 100 != 0 || y % 400 == 0)
}

/// How many days the given month of the given year has.
pub open spec fn days_in_month(y: int, m: int) -> int {
    if m == 1 || m == 3 || m == 5 || m == 7 || m == 8 || m == 10 || m == 12 {
        31
    } else if m == 4 || m == 6 || m == 9 || m == 11 {
        30
    } else if is_leap_year(y) {
        29
    } else {
        28
    }
}

/// `YYYY-MM-DD` at the start of `s`, naming a real calendar day.
pub open spec fn valid_date_part(s: Seq<char>) -> bool {
    &&& s.len() >= 10
    &&& is_digit(s[0])
    &&& is_digit(s[1])
    &&& is_digit(s[2])
    &&& is_digit(s[3])
    &&& s[4] == '-'
    &&& is_digit(s[5])
    &&& is_digit(s[6])
    &&& s[7] == '-'
    &&& is_digit(s[8])
    &&& is_digit(s[9])
    &&& 1 <= num2(s, 5) <= 12
    &&& 1 <= num2(s, 8) <= days_in_month(num4(s, 0), num2(s, 5))
}

/// `HH:MM:SS` at position `i`.
pub open spec fn valid_time_part(s: Seq<char>, i: int) -> bool {
    &&& i + 8 <= s.len()
    &&& is_digit(s[i])
    &&& is_digit(s[i + 1])
    &&& s[i + 2] == ':'
    &&& is_digit(s[i + 3])
    &&& is_digit(s[i + 4])
    &&& s[i + 5] == ':'
    &&& is_digit(s[i + 6])
    &&& is_digit(s[i + 7])
    &&& 0 <= num2(s, i) <= 23
    &&& 0 <= num2(s, i + 3) <= 59
    &&& 0 <= num2(s, i + 6) <= 59
}

/// The index of the first non-digit at or after `i`.
pub open spec fn digits_end(s: Seq<char>, i: int) -> int
    decreases s.len() - i,
{
    if 0 <= i < s.len() && is_digit(s[i]) {
        digits_end(s, i + 1)
    } else {
        i
    }
}

/// An offset filling `s` from `i` to its end: `Z`, or a signed
/// hours-and-minutes distance from universal time.
pub open spec fn valid_offset_part(s: Seq<char>, i: int) -> bool {
    ||| (i + 1 == s.len() && (s[i] == 'Z' || s[i] == 'z'))
    ||| (i + 6 == s.len() && (s[i] == '+' || s[i] == '-') && is_digit(s[i + 1]) && is_digit(
        s[i + 2],
    ) && s[i + 3] == ':' && is_digit(s[i + 4]) && is_digit(s[i + 5]) && 0 <= num2(s, i + 1) <= 23
        && 0 <= num2(s, i + 4) <= 59)
}

/// A well-formed RFC 3339 timestamp: date, `T`, time, an optional
/// fraction of a second, and an offset.
pub open spec fn is_rfc3339(s: Seq<char>) -> bool {
    &&& s.len() >= 20
    &&& valid_date_part(s)
    &&& (s[10] == 'T' || s[10] == 't')
    &&& valid_time_part(s, 11)
    &&& if s[19] == '.' {
        digits_end(s, 20) > 20 && valid_offset_part(s, digits_end(s, 20))
    } else {
        valid_offset_part(s, 19)
    }
}

fn is_digit_exec(c: char) -> (r: bool)
    ensures
        r == is_digit(c),
{
    '0' <= c && c <= '9'
}

fn digit_val_exec(c: char) -> (r: u32)
    requires
        is_digit(c),
    ensures
        r as int == digit_val(c),
        r <= 9,
{
    (c as u32) - ('0' as u32)
}

fn num2_exec(c1: char, c2: char) -> (r: u32)
    requires
        is_digit(c1),
        is_digit(c2),
    ensures
        r as int == 10 * digit_val(c1) + digit_val(c2),
{
    10 * digit_val_exec(c1) + digit_val_exec(c2)
}

fn num4_exec(c1: char, c2: char, c3: char, c4: char) -> (r: u32)
    requires
        is_digit(c1),
        is_digit(c2),
        is_digit(c3),
        is_digit(c4),
    ensures
        r as int == 1000 * digit_val(c1) + 100 * digit_val(c2) + 10 * digit_val(c3) + digit_val(
            c4,
        ),
{
    1000 * digit_val_exec(c1) + 100 * digit_val_exec(c2) + 10 * digit_val_exec(c3) + digit_val_exec(
        c4,
    )
}

fn valid_date_part_exec(v: &Vec<char>) -> (r: bool)
    ensures
        r == valid_date_part(v@),
{
    if v.len() < 10 {
        return false;
    }
    if !(is_digit_exec(v[0]) && is_digit_exec(v[1]) && is_digit_exec(v[2]) && is_digit_exec(v[3])
        && v[4] == '-' && is_digit_exec(v[5]) && is_digit_exec(v[6]) && v[7] == '-'
        && is_digit_exec(v[8]) && is_digit_exec(v[9])) {
        return false;
    }
    let y = num4_exec(v[0], v[1], v[2], v[3]);
    let m = num2_exec(v[5], v[6]);
    let d = num2_exec(v[8], v[9]);
    if !(1 <= m && m <= 12) {
        return false;
    }
    let max_day: u32 = if m == 1 || m == 3 || m == 5 || m == 7 || m == 8 || m == 10 || m == 12 {
        31
    } else if m == 4 || m == 6 || m == 9 || m == 11 {
        30
    } else if y % 4 == 0 && (y % 100 != 0 || y % 400 == 0) {
        29
    } else {
        28
    };
    1 <= d && d <= max_day
}

fn valid_time_part_exec(v: &Vec<char>, i: usize) -> (r: bool)
    ensures
        r == valid_time_part(v@, i as int),
{
    if v.len() < 8 || i > v.len() - 8 {
        return false;
    }
    if !(is_digit_exec(v[i]) && is_digit_exec(v[i + 1]) && v[i + 2] == ':' && is_digit_exec(
        v[i + 3],
    ) && is_digit_exec(v[i + 4]) && v[i + 5] == ':' && is_digit_exec(v[i + 6]) && is_digit_exec(
        v[i + 7],
    )) {
        return false;
    }
    let h = num2_exec(v[i], v[i + 1]);
    let mi = num2_exec(v[i + 3], v[i + 4]);
    let se = num2_exec(v[i + 6], v[i + 7]);
    h <= 23 && mi <= 59 && se <= 59
}

fn valid_offset_part_exec(v: &Vec<char>, i: usize) -> (r: bool)
    requires
        i <= v@.len(),
    ensures
        r == valid_offset_part(v@, i as int),
{
    let n = v.len();
    if i < n && i == n - 1 && (v[i] == 'Z' || v[i] == 'z') {
        return true;
    }
    if n >= 6 && i == n - 6 && (v[i] == '+' || v[i] == '-') && is_digit_exec(v[i + 1])
        && is_digit_exec(v[i + 2]) && v[i + 3] == ':' && is_digit_exec(v[i + 4]) && is_digit_exec(
        v[i + 5],
    ) {
        let h = num2_exec(v[i + 1], v[i + 2]);
        let mi = num2_exec(v[i + 4], v[i + 5]);
        h <= 23 && mi <= 59
    } else {
        false
    }
}

/// Whether `s` is a well-formed RFC 3339 timestamp.
pub fn is_rfc3339_str(s: &str) -> (r: bool)
    ensures
        r == is_rfc3339(s@),
{
    let v = chars_of(s);
    if v.len() < 20 {
        return false;
    }
    if !valid_date_part_exec(&v) {
        return false;
    }
    if !(v[10] == 'T' || v[10] == 't') {
        return false;
    }
    if !valid_time_part_exec(&v, 11) {
        return false;
    }
    if v[19] == '.' {
        let mut j: usize = 20;
        while j < v.len() && is_digit_exec(v[j])
            invariant
                20 <= j <= v@.len(),
                digits_end(v@, 20) == digits_end(v@, j as int),
            decreases v@.len() - j,
        {
            j = j + 1;
        }
        proof {
            assert(digits_end(v@, j as int) == j);
        }
        if j == 20 {
            return false;
        }
        valid_offset_part_exec(&v, j)
    } else {
        valid_offset_part_exec(&v, 19)
    }
}

/// The timestamp the library falls back to when the clock's formatted
/// reading is not well-formed.
pub fn epoch_timestamp() -> (r: String)
    ensures
        r@ == "1970-01-01T00:00:00Z"@,
{
    let r = String::from_str("1970-01-01T00:00:00Z");
    r
}

/// Relies on `time::OffsetDateTime::now_utc` and
/// `OffsetDateTime::format` with the RFC 3339 description: the current
/// universal time, rendered in that standard. The reading depends on
/// the clock, so nothing is promised of the value; formatting failure
/// is handed back as absence.
#[verifier::external_body]
fn clock_now_rfc3339() -> (r: Option<String>)
{
    time::OffsetDateTime::now_utc().format(&time::format_description::well_known::Rfc3339).ok()
}

/// Reads the current time as RFC 3339 text.
///
/// Whatever the clock and its formatter hand back, the result is
/// well-formed: a reading that is not is replaced by the epoch.
pub fn current_time_rfc3339() -> (r: String)
    ensures
        is_rfc3339(r@),
{
    let candidate = match clock_now_rfc3339() {
        Some(t) => t,
        None => epoch_timestamp(),
    };
    if is_rfc3339_str(candidate.as_str()) {
        candidate
    } else {
        let fallback = epoch_timestamp();
        proof {
            reveal_strlit("1970-01-01T00:00:00Z");
            assert(is_rfc3339(fallback@)) by {
                assert(digit_val('1') == 1);
                assert(digit_val('9') == 9);
                assert(digit_val('7') == 7);
                assert(digit_val('0') == 0);
            }
        }
        fallback
    }
}

} // verus!
