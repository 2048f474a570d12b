//! Timestamps as text: a checked RFC 3339 UTC shape
//! (`YYYY-MM-DDTHH:MM:SS[.fraction]Z`), the fixed first-run default, and
//! the clock read behind a trusted call.
use vstd::prelude::*;
use crate::ip::{is_digit, digit_val};
use crate::text::wf_text;

verus! {

/// A leap year of the Gregorian calendar.
pub open spec fn is_leap_year(y: int) -> bool {
    y % 4 == 0 && (y % 100 != 0 || y % 400 == 0)
}

/// How many days the month has in that year.
pub open spec fn days_in_month(y: int, m: int) -> int {
    if m == 2 {
        if is_leap_year(y) {
            29
        } else {
            28
        }
    } else if m == 4 || m == 6 || m == 9 || m == 11 {
        30
    } else {
        31
    }
}

pub open spec fn ts_year(s: Seq<char>) -> int {
    digit_val(s[0]) * 1000 + digit_val(s[1]) * 100 + digit_val(s[2]) * 10 + digit_val(s[3])
}

pub open spec fn ts_month(s: Seq<char>) -> int {
    digit_val(s[5]) * 10 + digit_val(s[6])
}

pub open spec fn ts_day(s: Seq<char>) -> int {
    digit_val(s[8]) * 10 + digit_val(s[9])
}

/// The accepted timestamp shape: a calendar date (month length and leap
/// years respected) and a time of day with two-digit fields in range,
/// an optional fractional-seconds part, and a final 'Z'.
pub open spec fn spec_is_timestamp(s: Seq<char>) -> bool {
    &&& s.len() >= 20
    &&& is_digit(s[0]) && is_digit(s[1]) && is_digit(s[2]) && is_digit(s[3])
    &&& s[4] == '-'
    &&& is_digit(s[5]) && is_digit(s[6])
    &&& s[7] == '-'
    &&& is_digit(s[8]) && is_digit(s[9])
    &&& s[10] == 'T'
    &&& is_digit(s[11]) && is_digit(s[12])
    &&& s[13] == ':'
    &&& is_digit(s[14]) && is_digit(s[15])
    &&& s[16] == ':'
    &&& is_digit(s[17]) && is_digit(s[18])
    &&& s[s.len() - 1] == 'Z'
    &&& 1 <= ts_month(s) <= 12
    &&& 1 <= ts_day(s) <= days_in_month(ts_year(s), ts_month(s))
    &&& digit_val(s[11]) * 10 + digit_val(s[12]) <= 23
    &&& digit_val(s[14]) * 10 + digit_val(s[15]) <= 59
    &&& digit_val(s[17]) * 10 + digit_val(s[18]) <= 59
    &&& (s.len() > 20 ==> s[19] == '.' && s.len() >= 22 && forall|k: int|
        20 <= k < s.len() - 1 ==> is_digit(#[trigger] s[k]))
}

fn digit_at(s: &str, i: usize) -> (r: Option<u8>)
    requires
        i < s@.len(),
    ensures
        match r {
            Some(v) => is_digit(s@[i as int]) && v == digit_val(s@[i as int]),
            None => !is_digit(s@[i as int]),
        },
{
    let c = s.get_char(i);
    if c == '0' { Some(0) }
    else if c == '1' { Some(1) }
    else if c == '2' { Some(2) }
    else if c == '3' { Some(3) }
    else if c == '4' { Some(4) }
    else if c == '5' { Some(5) }
    else if c == '6' { Some(6) }
    else if c == '7' { Some(7) }
    else if c == '8' { Some(8) }
    else if c == '9' { Some(9) }
    else { None }
}

fn two_digits_at(s: &str, i: usize, n: usize) -> (r: Option<u8>)
    requires
        n == s@.len(),
        i + 1 < n,
    ensures
        match r {
            Some(v) => is_digit(s@[i as int]) && is_digit(s@[i + 1]) && v == digit_val(
                s@[i as int],
            ) * 10 + digit_val(s@[i + 1]),
            None => !(is_digit(s@[i as int]) && is_digit(s@[i + 1])),
        },
{
    match (digit_at(s, i), digit_at(s, i + 1)) {
        (Some(h), Some(l)) => Some(h * 10 + l),
        _ => None,
    }
}

/// Decides `spec_is_timestamp`.
pub fn is_valid_timestamp(s: &str) -> (r: bool)
    ensures
        r == spec_is_timestamp(s@),
{
    let n = s.unicode_len();
    if n < 20 {
        return false;
    }
    if digit_at(s, 0).is_none() || digit_at(s, 1).is_none() || digit_at(s, 2).is_none()
        || digit_at(s, 3).is_none() {
        return false;
    }
    if s.get_char(4) != '-' || s.get_char(7) != '-' || s.get_char(10) != 'T' || s.get_char(13)
        != ':' || s.get_char(16) != ':' {
        return false;
    }
    let year_hi = match two_digits_at(s, 0, n) {
        Some(v) => v,
        None => {
            return false;
        },
    };
    let year_lo = match two_digits_at(s, 2, n) {
        Some(v) => v,
        None => {
            return false;
        },
    };
    let year: u32 = year_hi as u32 * 100 + year_lo as u32;
    let month = match two_digits_at(s, 5, n) {
        Some(v) => v,
        None => {
            return false;
        },
    };
    let day = match two_digits_at(s, 8, n) {
        Some(v) => v,
        None => {
            return false;
        },
    };
    let hour = match two_digits_at(s, 11, n) {
        Some(v) => v,
        None => {
            return false;
        },
    };
    let minute = match two_digits_at(s, 14, n) {
        Some(v) => v,
        None => {
            return false;
        },
    };
    let second = match two_digits_at(s, 17, n) {
        Some(v) => v,
        None => {
            return false;
        },
    };
    if !(1 <= month && month <= 12 && hour <= 23 && minute <= 59 && second <= 59) {
        return false;
    }
    proof {
        assert(year == ts_year(s@));
        assert(month == ts_month(s@));
        assert(day == ts_day(s@));
    }
    let leap = year % 4 == 0 && (year % 100 != 0 || year % 400 == 0);
    let month_days: u8 = if month == 2 {
        if leap {
            29
        } else {
            28
        }
    } else if month == 4 || month == 6 || month == 9 || month == 11 {
        30
    } else {
        31
    };
    if !(1 <= day && day <= month_days) {
        return false;
    }
    if s.get_char(n - 1) != 'Z' {
        return false;
    }
    if n > 20 {
        if s.get_char(19) != '.' || n < 22 {
            return false;
        }
        let mut i: usize = 20;
        while i < n - 1
            invariant
                20 <= i <= n - 1,
                n == s@.len(),
                forall|k: int| 20 <= k < i ==> is_digit(#[trigger] s@[k]),
            decreases n - i,
        {
            if digit_at(s, i).is_none() {
                return false;
            }
            i = i + 1;
        }
    }
    true
}

/// The timestamp recorded before any clock has been read.
pub fn default_timestamp() -> (r: String)
    ensures
        r@ == "1970-01-01T00:00:00Z"@,
        spec_is_timestamp(r@),
        wf_text(r@),
{
    proof {
        reveal_strlit("1970-01-01T00:00:00Z");
    }
    String::from_str("1970-01-01T00:00:00Z")
}

/// Relies on chrono's Utc::now and DateTime::to_rfc3339_opts: reads the
/// system clock and renders it; nothing is assumed of the result, which
/// the caller checks.
#[verifier::external_body]
fn now_rfc3339() -> String {
    chrono::Utc::now().to_rfc3339_opts(chrono::SecondsFormat::Micros, true)
}

/// The current time as checked timestamp text; falls back to the default
/// when the clock's rendering does not fit the accepted shape.
pub fn current_timestamp() -> (r: String)
    ensures
        spec_is_timestamp(r@),
        wf_text(r@),
{
    let now = now_rfc3339();
    if is_valid_timestamp(now.as_str()) && crate::text::is_wf_text(now.as_str()) {
        now
    } else {
        default_timestamp()
    }
}

} // verus!
