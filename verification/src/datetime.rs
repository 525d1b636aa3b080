//! Calendar timestamps in the store's fixed `YYYY-MM-DDTHH:MM:SS` format:
//! parsing, formatting, and conversion to seconds since the Unix epoch.
//!
//! Timestamps carry no timezone offset; the surrounding application decides
//! what wall clock they are compared against.

use vstd::arithmetic::div_mod::{
    lemma_div_denominator, lemma_fundamental_div_mod, lemma_mod_division_less_than_divisor,
};
use vstd::prelude::*;
use vstd::string::*;

verus! {

/// A calendar date and time of day, second precision, proleptic Gregorian.
#[derive(Clone, Copy, Debug, PartialEq, Eq, Structural)]
pub struct DateTime {
    pub year: i64,
    pub month: i64,
    pub day: i64,
    pub hour: i64,
    pub minute: i64,
    pub second: i64,
}

/// Whether `y` is a leap year of the proleptic Gregorian calendar.
pub open spec fn is_leap_year(y: int) -> bool {
    y % 4 == 0 && (y % 100 != 0 || y % 400 == 0)
}

/// Number of days in year `y`.
pub open spec fn days_in_year(y: int) -> int {
    if is_leap_year(y) {
        366
    } else {
        365
    }
}

/// Number of days in month `m` of year `y` (months counted from 1).
pub open spec fn days_in_month(y: int, m: int) -> int {
    if m == 2 {
        if is_leap_year(y) {
            29
        } else {
            28
        }
    } else if m == 4 || m == 6 || m == 9 || m == 11 {
        30
    } else {
        31
    }
}

/// A component-wise valid date and time: the ranges the store accepts.
pub open spec fn valid_datetime(dt: DateTime) -> bool {
    &&& 0 <= dt.year <= 9999
    &&& 1 <= dt.month <= 12
    &&& 1 <= dt.day <= days_in_month(dt.year as int, dt.month as int)
    &&& 0 <= dt.hour <= 23
    &&& 0 <= dt.minute <= 59
    &&& 0 <= dt.second <= 59
}

/// Days in all years before `y`, counted from year 0.
pub open spec fn days_before_year(y: int) -> int
    decreases y,
{
    if y <= 0 {
        0
    } else {
        days_before_year(y - 1) + days_in_year(y - 1)
    }
}

/// Days in all months of year `y` before month `m`.
pub open spec fn days_before_month(y: int, m: int) -> int
    decreases m,
{
    if m <= 1 {
        0
    } else {
        days_before_month(y, m - 1) + days_in_month(y, m - 1)
    }
}

/// Days from 0000-01-01 to 1970-01-01 in the proleptic Gregorian calendar.
pub open spec fn epoch_day_offset() -> int {
    719528
}

/// Seconds since 1970-01-01T00:00:00 (negative before the epoch).
pub open spec fn timestamp_of(dt: DateTime) -> int {
    (days_before_year(dt.year as int) + days_before_month(dt.year as int, dt.month as int)
        + dt.day - 1 - epoch_day_offset()) * 86400 + dt.hour * 3600 + dt.minute * 60 + dt.second
}

proof fn lemma_days_before_year_bounds(y: int)
    requires
        0 <= y <= 10000,
    ensures
        365 * y <= days_before_year(y) <= 366 * y,
    decreases y,
{
    if y > 0 {
        lemma_days_before_year_bounds(y - 1);
    }
}

proof fn lemma_days_before_month_bounds(y: int, m: int)
    requires
        1 <= m <= 12,
    ensures
        0 <= days_before_month(y, m) <= 31 * (m - 1),
    decreases m,
{
    if m > 1 {
        lemma_days_before_month_bounds(y, m - 1);
    }
}

/// Whether `c` is an ASCII decimal digit.
pub open spec fn is_digit_char(c: char) -> bool {
    48 <= c as u32 <= 57
}

/// Numeric value of an ASCII decimal digit.
pub open spec fn digit_of(c: char) -> int {
    c as u32 - 48
}

/// The ASCII digit character for `d` (for `0 <= d <= 9`).
pub open spec fn digit_char(d: int) -> char {
    ((48 + d) as u8) as char
}

/// The store's fixed timestamp pattern: `YYYY-MM-DDTHH:MM:SS`.
pub open spec fn spec_parse_datetime(s: Seq<char>) -> Option<DateTime> {
    if s.len() == 19 && s[4] == '-' && s[7] == '-' && s[10] == 'T' && s[13] == ':' && s[16] == ':'
        && is_digit_char(s[0]) && is_digit_char(s[1]) && is_digit_char(s[2]) && is_digit_char(s[3])
        && is_digit_char(s[5]) && is_digit_char(s[6]) && is_digit_char(s[8]) && is_digit_char(s[9])
        && is_digit_char(s[11]) && is_digit_char(s[12]) && is_digit_char(s[14]) && is_digit_char(
        s[15],
    ) && is_digit_char(s[17]) && is_digit_char(s[18]) {
        let dt = DateTime {
            year: (digit_of(s[0]) * 1000 + digit_of(s[1]) * 100 + digit_of(s[2]) * 10 + digit_of(
                s[3],
            )) as i64,
            month: (digit_of(s[5]) * 10 + digit_of(s[6])) as i64,
            day: (digit_of(s[8]) * 10 + digit_of(s[9])) as i64,
            hour: (digit_of(s[11]) * 10 + digit_of(s[12])) as i64,
            minute: (digit_of(s[14]) * 10 + digit_of(s[15])) as i64,
            second: (digit_of(s[17]) * 10 + digit_of(s[18])) as i64,
        };
        if valid_datetime(dt) {
            Some(dt)
        } else {
            None
        }
    } else {
        None
    }
}

/// The fixed `YYYY-MM-DDTHH:MM:SS` rendering of a valid date and time.
pub open spec fn spec_format_datetime(dt: DateTime) -> Seq<char> {
    seq![
        digit_char(dt.year as int / 1000),
        digit_char((dt.year as int / 100) % 10),
        digit_char((dt.year as int / 10) % 10),
        digit_char(dt.year as int % 10),
        '-',
        digit_char(dt.month as int / 10),
        digit_char(dt.month as int % 10),
        '-',
        digit_char(dt.day as int / 10),
        digit_char(dt.day as int % 10),
        'T',
        digit_char(dt.hour as int / 10),
        digit_char(dt.hour as int % 10),
        ':',
        digit_char(dt.minute as int / 10),
        digit_char(dt.minute as int % 10),
        ':',
        digit_char(dt.second as int / 10),
        digit_char(dt.second as int % 10),
    ]
}

impl DateTime {
    /// Whether the component ranges are valid; mirrors [`valid_datetime`].
    pub fn is_valid(&self) -> (r: bool)
        ensures
            r == valid_datetime(*self),
    {
        let leap: bool = self.year % 4 == 0 && (self.year % 100 != 0 || self.year % 400 == 0);
        if !(0 <= self.year && self.year <= 9999) {
            return false;
        }
        if !(1 <= self.month && self.month <= 12) {
            return false;
        }
        let dim: i64 = if self.month == 2 {
            if leap {
                29
            } else {
                28
            }
        } else if self.month == 4 || self.month == 6 || self.month == 9 || self.month == 11 {
            30
        } else {
            31
        };
        1 <= self.day && self.day <= dim && 0 <= self.hour && self.hour <= 23 && 0 <= self.minute
            && self.minute <= 59 && 0 <= self.second && self.second <= 59
    }

    /// Seconds since the Unix epoch; mirrors [`timestamp_of`].
    pub fn timestamp(&self) -> (r: i64)
        requires
            valid_datetime(*self),
        ensures
            r == timestamp_of(*self),
    {
        let mut days: i64 = 0;
        let mut y: i64 = 0;
        while y < self.year
            invariant
                0 <= y <= self.year <= 9999,
                days == days_before_year(y as int),
                0 <= days <= 366 * y,
            decreases self.year - y,
        {
            proof {
                lemma_days_before_year_bounds(y as int);
                lemma_days_before_year_bounds(y + 1);
            }
            let leap: bool = y % 4 == 0 && (y % 100 != 0 || y % 400 == 0);
            days = days + if leap {
                366
            } else {
                365
            };
            y = y + 1;
        }
        proof {
            lemma_days_before_year_bounds(self.year as int);
        }
        let mut m: i64 = 1;
        while m < self.month
            invariant
                1 <= m <= self.month <= 12,
                valid_datetime(*self),
                days == days_before_year(self.year as int) + days_before_month(
                    self.year as int,
                    m as int,
                ),
                0 <= days <= 366 * 9999 + 366,
            decreases self.month - m,
        {
            proof {
                lemma_days_before_year_bounds(self.year as int);
                lemma_days_before_month_bounds(self.year as int, m as int);
                lemma_days_before_month_bounds(self.year as int, m + 1);
            }
            let leap: bool = self.year % 4 == 0 && (self.year % 100 != 0 || self.year % 400
                == 0);
            let dim: i64 = if m == 2 {
                if leap {
                    29
                } else {
                    28
                }
            } else if m == 4 || m == 6 || m == 9 || m == 11 {
                30
            } else {
                31
            };
            days = days + dim;
            m = m + 1;
        }
        proof {
            lemma_days_before_year_bounds(self.year as int);
            lemma_days_before_month_bounds(self.year as int, self.month as int);
        }
        let day_number: i64 = days + self.day - 1 - 719528;
        day_number * 86400 + self.hour * 3600 + self.minute * 60 + self.second
    }

    /// Renders the fixed `YYYY-MM-DDTHH:MM:SS` pattern; mirrors
    /// [`spec_format_datetime`].
    pub fn format(&self) -> (r: String)
        requires
            valid_datetime(*self),
        ensures
            r@ == spec_format_datetime(*self),
    {
        proof {
            reveal_strlit("-");
            reveal_strlit("T");
            reveal_strlit(":");
        }
        let y = self.year as u64;
        let mo = self.month as u64;
        let d = self.day as u64;
        let h = self.hour as u64;
        let mi = self.minute as u64;
        let se = self.second as u64;
        let mut out = String::new();
        out.append(digit_str(y / 1000));
        out.append(digit_str((y / 100) % 10));
        out.append(digit_str((y / 10) % 10));
        out.append(digit_str(y % 10));
        out.append("-");
        out.append(digit_str(mo / 10));
        out.append(digit_str(mo % 10));
        out.append("-");
        out.append(digit_str(d / 10));
        out.append(digit_str(d % 10));
        out.append("T");
        out.append(digit_str(h / 10));
        out.append(digit_str(h % 10));
        out.append(":");
        out.append(digit_str(mi / 10));
        out.append(digit_str(mi % 10));
        out.append(":");
        out.append(digit_str(se / 10));
        out.append(digit_str(se % 10));
        proof {
            assert(out@ =~= spec_format_datetime(*self));
        }
        out
    }
}

/// A decimal digit renders to a digit character that reads back as itself.
proof fn lemma_digit_char_val(d: int)
    requires
        0 <= d <= 9,
    ensures
        is_digit_char(digit_char(d)),
        digit_of(digit_char(d)) == d,
{
}

/// A two-digit component splits into digits that rebuild it.
proof fn lemma_two_digit_split(x: int)
    requires
        0 <= x <= 99,
    ensures
        0 <= x / 10 <= 9,
        0 <= x % 10 <= 9,
        (x / 10) * 10 + x % 10 == x,
{
    lemma_fundamental_div_mod(x, 10);
    lemma_mod_division_less_than_divisor(x, 10);
}

/// A four-digit component splits into digits that rebuild it.
proof fn lemma_four_digit_split(y: int)
    requires
        0 <= y <= 9999,
    ensures
        0 <= y / 1000 <= 9,
        0 <= (y / 100) % 10 <= 9,
        0 <= (y / 10) % 10 <= 9,
        0 <= y % 10 <= 9,
        (y / 1000) * 1000 + ((y / 100) % 10) * 100 + ((y / 10) % 10) * 10 + y % 10 == y,
{
    lemma_fundamental_div_mod(y, 10);
    lemma_mod_division_less_than_divisor(y, 10);
    lemma_fundamental_div_mod(y / 10, 10);
    lemma_mod_division_less_than_divisor(y / 10, 10);
    lemma_div_denominator(y, 10, 10);
    lemma_fundamental_div_mod(y / 100, 10);
    lemma_mod_division_less_than_divisor(y / 100, 10);
    lemma_div_denominator(y, 100, 10);
    lemma_fundamental_div_mod(y, 1000);
    lemma_mod_division_less_than_divisor(y, 1000);
}

/// A valid date and time, rendered in the fixed pattern, parses back to
/// itself: the repository accepts exactly what the creation flow formats.
pub proof fn lemma_format_parse_round_trip(dt: DateTime)
    requires
        valid_datetime(dt),
    ensures
        spec_parse_datetime(spec_format_datetime(dt)) == Some(dt),
{
    let s = spec_format_datetime(dt);
    let y = dt.year as int;
    let mo = dt.month as int;
    let d = dt.day as int;
    let h = dt.hour as int;
    let mi = dt.minute as int;
    let se = dt.second as int;
    lemma_four_digit_split(y);
    lemma_two_digit_split(mo);
    lemma_two_digit_split(d);
    lemma_two_digit_split(h);
    lemma_two_digit_split(mi);
    lemma_two_digit_split(se);
    lemma_digit_char_val(y / 1000);
    lemma_digit_char_val((y / 100) % 10);
    lemma_digit_char_val((y / 10) % 10);
    lemma_digit_char_val(y % 10);
    lemma_digit_char_val(mo / 10);
    lemma_digit_char_val(mo % 10);
    lemma_digit_char_val(d / 10);
    lemma_digit_char_val(d % 10);
    lemma_digit_char_val(h / 10);
    lemma_digit_char_val(h % 10);
    lemma_digit_char_val(mi / 10);
    lemma_digit_char_val(mi % 10);
    lemma_digit_char_val(se / 10);
    lemma_digit_char_val(se % 10);
    assert(s.len() == 19);
    assert(spec_parse_datetime(s) == Some(dt));
}

/// The one-character string for the decimal digit `d`.
fn digit_str(d: u64) -> (r: &'static str)
    requires
        d <= 9,
    ensures
        r@ =~= seq![digit_char(d as int)],
{
    proof {
        reveal_strlit("0");
        reveal_strlit("1");
        reveal_strlit("2");
        reveal_strlit("3");
        reveal_strlit("4");
        reveal_strlit("5");
        reveal_strlit("6");
        reveal_strlit("7");
        reveal_strlit("8");
        reveal_strlit("9");
    }
    match d {
        0 => "0",
        1 => "1",
        2 => "2",
        3 => "3",
        4 => "4",
        5 => "5",
        6 => "6",
        7 => "7",
        8 => "8",
        _ => "9",
    }
}

/// Reads the decimal digit at character position `i`, if it is one.
fn digit_at(s: &str, i: usize) -> (r: Option<u32>)
    requires
        i < s@.len(),
    ensures
        match r {
            Some(v) => is_digit_char(s@[i as int]) && v == digit_of(s@[i as int]),
            None => !is_digit_char(s@[i as int]),
        },
{
    let c = s.get_char(i);
    let v = c as u32;
    if 48 <= v && v <= 57 {
        Some(v - 48)
    } else {
        None
    }
}

/// Parses the fixed `YYYY-MM-DDTHH:MM:SS` pattern; mirrors
/// [`spec_parse_datetime`].
pub fn parse_datetime(s: &str) -> (r: Option<DateTime>)
    ensures
        r == spec_parse_datetime(s@),
{
    if s.unicode_len() != 19 {
        return None;
    }
    if !(s.get_char(4) == '-' && s.get_char(7) == '-' && s.get_char(10) == 'T' && s.get_char(13)
        == ':' && s.get_char(16) == ':') {
        return None;
    }
    let d0 = match digit_at(s, 0) {
        Some(v) => v,
        None => {
            return None;
        },
    };
    let d1 = match digit_at(s, 1) {
        Some(v) => v,
        None => {
            return None;
        },
    };
    let d2 = match digit_at(s, 2) {
        Some(v) => v,
        None => {
            return None;
        },
    };
    let d3 = match digit_at(s, 3) {
        Some(v) => v,
        None => {
            return None;
        },
    };
    let d5 = match digit_at(s, 5) {
        Some(v) => v,
        None => {
            return None;
        },
    };
    let d6 = match digit_at(s, 6) {
        Some(v) => v,
        None => {
            return None;
        },
    };
    let d8 = match digit_at(s, 8) {
        Some(v) => v,
        None => {
            return None;
        },
    };
    let d9 = match digit_at(s, 9) {
        Some(v) => v,
        None => {
            return None;
        },
    };
    let d11 = match digit_at(s, 11) {
        Some(v) => v,
        None => {
            return None;
        },
    };
    let d12 = match digit_at(s, 12) {
        Some(v) => v,
        None => {
            return None;
        },
    };
    let d14 = match digit_at(s, 14) {
        Some(v) => v,
        None => {
            return None;
        },
    };
    let d15 = match digit_at(s, 15) {
        Some(v) => v,
        None => {
            return None;
        },
    };
    let d17 = match digit_at(s, 17) {
        Some(v) => v,
        None => {
            return None;
        },
    };
    let d18 = match digit_at(s, 18) {
        Some(v) => v,
        None => {
            return None;
        },
    };
    let dt = DateTime {
        year: (d0 * 1000 + d1 * 100 + d2 * 10 + d3) as i64,
        month: (d5 * 10 + d6) as i64,
        day: (d8 * 10 + d9) as i64,
        hour: (d11 * 10 + d12) as i64,
        minute: (d14 * 10 + d15) as i64,
        second: (d17 * 10 + d18) as i64,
    };
    if dt.is_valid() {
        Some(dt)
    } else {
        None
    }
}

} // verus!
