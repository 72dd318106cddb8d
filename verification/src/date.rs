//! Calendar dates, the natural key of the summary store.
//!
//! A summary row is keyed by the day it describes, so dates carry their own
//! validity invariant and a total order. The proleptic Gregorian rules for
//! leap years decide how many days each month has. Dates travel as
//! `YYYY-MM-DD` text in requests and as `YYYYMMDD` text in archive file
//! names; both renderings and their parsers are specified byte for byte.

use crate::ascii::{all_ascii, ascii_chars, digit_byte, push_four_digits, push_two_digits,
    string_from_ascii};
use vstd::arithmetic::div_mod::{lemma_breakdown, lemma_div_is_ordered, lemma_div_pos_is_pos,
    lemma_div_multiples_vanish_fancy, lemma_fundamental_div_mod,
    lemma_mod_division_less_than_divisor, lemma_mod_multiples_vanish, lemma_small_mod};
use vstd::prelude::*;
use vstd::string::StringSliceAdditionalSpecFns;

verus! {

/// A calendar date, year 0 through 9999.
#[derive(Clone, Copy, PartialEq, Eq, Structural, Debug)]
pub struct Date {
    pub year: u16,
    pub month: u8,
    pub day: u8,
}

/// True when `y` is a leap year under the Gregorian rule.
pub open spec fn spec_is_leap_year(y: int) -> bool {
    y % 4 == 0 && (y % 100 != 0 || y % 400 == 0)
}

/// Number of days in month `m` of year `y` (1-based months).
pub open spec fn spec_days_in_month(y: int, m: int) -> int {
    if m == 2 {
        if spec_is_leap_year(y) {
            29
        } else {
            28
        }
    } else if m == 4 || m == 6 || m == 9 || m == 11 {
        30
    } else {
        31
    }
}

impl Date {
    /// The date is a real calendar day with a four-digit year.
    pub open spec fn valid(self) -> bool {
        &&& self.year <= 9999
        &&& 1 <= self.month <= 12
        &&& 1 <= self.day <= spec_days_in_month(self.year as int, self.month as int)
    }

    /// Total order on dates: year, then month, then day.
    pub open spec fn key(self) -> int {
        self.year * 10000 + self.month * 100 + self.day
    }
}

/// The ten bytes of a date in `YYYY-MM-DD` form.
pub open spec fn iso_bytes(d: Date) -> Seq<u8> {
    seq![
        digit_byte(d.year as int / 1000),
        digit_byte(d.year as int / 100 % 10),
        digit_byte(d.year as int / 10 % 10),
        digit_byte(d.year as int % 10),
        0x2du8,
        digit_byte(d.month as int / 10),
        digit_byte(d.month as int % 10),
        0x2du8,
        digit_byte(d.day as int / 10),
        digit_byte(d.day as int % 10),
    ]
}

/// The eight bytes of a date in `YYYYMMDD` form.
pub open spec fn compact_bytes(d: Date) -> Seq<u8> {
    seq![
        digit_byte(d.year as int / 1000),
        digit_byte(d.year as int / 100 % 10),
        digit_byte(d.year as int / 10 % 10),
        digit_byte(d.year as int % 10),
        digit_byte(d.month as int / 10),
        digit_byte(d.month as int % 10),
        digit_byte(d.day as int / 10),
        digit_byte(d.day as int % 10),
    ]
}

/// A four-digit number is recovered from its decimal digits, and each digit
/// of the recombined number is the digit it was built from.
proof fn lemma_digits4(a: int, b: int, c: int, d: int)
    requires
        0 <= a <= 9,
        0 <= b <= 9,
        0 <= c <= 9,
        0 <= d <= 9,
    ensures
        (1000 * a + 100 * b + 10 * c + d) / 1000 == a,
        (1000 * a + 100 * b + 10 * c + d) / 100 % 10 == b,
        (1000 * a + 100 * b + 10 * c + d) / 10 % 10 == c,
        (1000 * a + 100 * b + 10 * c + d) % 10 == d,
{
    let n = 1000 * a + 100 * b + 10 * c + d;
    lemma_div_multiples_vanish_fancy(a, 100 * b + 10 * c + d, 1000);
    assert(n == 100 * (10 * a + b) + (10 * c + d));
    lemma_div_multiples_vanish_fancy(10 * a + b, 10 * c + d, 100);
    lemma_mod_multiples_vanish(a, b, 10);
    lemma_small_mod(b as nat, 10);
    assert(n == 10 * (100 * a + 10 * b + c) + d);
    lemma_div_multiples_vanish_fancy(100 * a + 10 * b + c, d, 10);
    lemma_mod_multiples_vanish(10 * a + b, c, 10);
    lemma_small_mod(c as nat, 10);
    lemma_mod_multiples_vanish(100 * a + 10 * b + c, d, 10);
    lemma_small_mod(d as nat, 10);
}

/// A two-digit number is recovered from its decimal digits, and conversely.
proof fn lemma_digits2(a: int, b: int)
    requires
        0 <= a <= 9,
        0 <= b <= 9,
    ensures
        (10 * a + b) / 10 == a,
        (10 * a + b) % 10 == b,
{
    lemma_div_multiples_vanish_fancy(a, b, 10);
    lemma_mod_multiples_vanish(a, b, 10);
    lemma_small_mod(b as nat, 10);
}

/// The decimal digits of a number up to 9999 are single digits that
/// recombine to the number itself.
proof fn lemma_year_digits(y: int)
    requires
        0 <= y <= 9999,
    ensures
        0 <= y / 1000 <= 9,
        0 <= y / 100 % 10 <= 9,
        0 <= y / 10 % 10 <= 9,
        0 <= y % 10 <= 9,
        y == 1000 * (y / 1000) + 100 * (y / 100 % 10) + 10 * (y / 10 % 10) + y % 10,
{
    lemma_div_pos_is_pos(y, 1000);
    lemma_div_is_ordered(y, 9999, 1000);
    lemma_mod_division_less_than_divisor(y / 100, 10);
    lemma_div_pos_is_pos(y / 100, 10);
    lemma_div_pos_is_pos(y, 100);
    lemma_mod_division_less_than_divisor(y / 10, 10);
    lemma_div_pos_is_pos(y / 10, 10);
    lemma_div_pos_is_pos(y, 10);
    lemma_mod_division_less_than_divisor(y, 10);
    lemma_fundamental_div_mod(y, 1000);
    lemma_breakdown(y, 100, 10);
    lemma_breakdown(y, 10, 10);
    lemma_mod_division_less_than_divisor(y, 1000);
    lemma_mod_division_less_than_divisor(y, 100);
}

/// The decimal digits of a number up to 99 are single digits that recombine
/// to the number itself.
proof fn lemma_two_digit_split(m: int)
    requires
        0 <= m <= 99,
    ensures
        0 <= m / 10 <= 9,
        0 <= m % 10 <= 9,
        m == 10 * (m / 10) + m % 10,
{
    lemma_div_pos_is_pos(m, 10);
    lemma_div_is_ordered(m, 99, 10);
    lemma_mod_division_less_than_divisor(m, 10);
    lemma_fundamental_div_mod(m, 10);
}

/// The textual renderings of a valid date are pure ASCII.
pub proof fn lemma_date_bytes_ascii(d: Date)
    requires
        d.valid(),
    ensures
        all_ascii(iso_bytes(d)),
        all_ascii(compact_bytes(d)),
{
    lemma_year_digits(d.year as int);
    lemma_two_digit_split(d.month as int);
    lemma_two_digit_split(d.day as int);
}

/// True when `y` is a leap year.
pub fn is_leap_year(y: u16) -> (r: bool)
    ensures
        r == spec_is_leap_year(y as int),
{
    y % 4 == 0 && (y % 100 != 0 || y % 400 == 0)
}

/// Number of days in month `m` of year `y`.
pub fn days_in_month(y: u16, m: u8) -> (r: u8)
    ensures
        r == spec_days_in_month(y as int, m as int),
{
    if m == 2 {
        if is_leap_year(y) {
            29
        } else {
            28
        }
    } else if m == 4 || m == 6 || m == 9 || m == 11 {
        30
    } else {
        31
    }
}

impl Date {
    /// Builds a date after checking it against the calendar.
    pub fn new(year: u16, month: u8, day: u8) -> (r: Option<Date>)
        ensures
            match r {
                Some(d) => d == (Date { year, month, day }) && d.valid(),
                None => !(Date { year, month, day }).valid(),
            },
    {
        if year <= 9999 && 1 <= month && month <= 12 && 1 <= day && day <= days_in_month(
            year,
            month,
        ) {
            Some(Date { year, month, day })
        } else {
            None
        }
    }

    /// True when `self` is on or before `other`.
    pub fn le(&self, other: &Date) -> (r: bool)
        requires
            self.valid(),
            other.valid(),
        ensures
            r == (self.key() <= other.key()),
    {
        let a: u32 = self.year as u32 * 10000 + self.month as u32 * 100 + self.day as u32;
        let b: u32 = other.year as u32 * 10000 + other.month as u32 * 100 + other.day as u32;
        a <= b
    }

    /// Renders the date as `YYYY-MM-DD`.
    pub fn format_iso(&self) -> (r: String)
        requires
            self.valid(),
        ensures
            r@ == ascii_chars(iso_bytes(*self)),
            r@.len() == 10,
    {
        proof {
            lemma_year_digits(self.year as int);
            lemma_two_digit_split(self.month as int);
            lemma_two_digit_split(self.day as int);
        }
        let mut out: Vec<u8> = Vec::new();
        push_four_digits(&mut out, self.year);
        out.push(0x2d);
        push_two_digits(&mut out, self.month);
        out.push(0x2d);
        push_two_digits(&mut out, self.day);
        proof {
            assert(out@ =~= iso_bytes(*self));
        }
        string_from_ascii(out)
    }

    /// Renders the date as `YYYYMMDD`.
    pub fn format_compact(&self) -> (r: String)
        requires
            self.valid(),
        ensures
            r@ == ascii_chars(compact_bytes(*self)),
            r@.len() == 8,
    {
        proof {
            lemma_year_digits(self.year as int);
            lemma_two_digit_split(self.month as int);
            lemma_two_digit_split(self.day as int);
        }
        let mut out: Vec<u8> = Vec::new();
        push_four_digits(&mut out, self.year);
        push_two_digits(&mut out, self.month);
        push_two_digits(&mut out, self.day);
        proof {
            assert(out@ =~= compact_bytes(*self));
        }
        string_from_ascii(out)
    }

    /// The day after `self`, or `None` past the last representable day.
    pub fn next_day(&self) -> (r: Option<Date>)
        requires
            self.valid(),
        ensures
            match r {
                Some(n) => n.valid() && n == spec_next_day(*self) && n.key() > self.key(),
                None => self.year == 9999 && self.month == 12 && self.day == 31,
            },
    {
        if self.day < days_in_month(self.year, self.month) {
            Some(Date { year: self.year, month: self.month, day: self.day + 1 })
        } else if self.month < 12 {
            Some(Date { year: self.year, month: self.month + 1, day: 1 })
        } else if self.year < 9999 {
            Some(Date { year: self.year + 1, month: 1, day: 1 })
        } else {
            None
        }
    }
}

/// The calendar successor of `d` (meaningful for valid dates below the
/// last representable day).
pub open spec fn spec_next_day(d: Date) -> Date {
    if d.day < spec_days_in_month(d.year as int, d.month as int) {
        Date { year: d.year, month: d.month, day: (d.day + 1) as u8 }
    } else if d.month < 12 {
        Date { year: d.year, month: (d.month + 1) as u8, day: 1 }
    } else {
        Date { year: (d.year + 1) as u16, month: 1, day: 1 }
    }
}

/// True when byte `b` is an ASCII decimal digit.
fn is_digit(b: u8) -> (r: bool)
    ensures
        r == (0x30 <= b <= 0x39),
{
    0x30 <= b && b <= 0x39
}

impl Date {

    /// Parses `YYYY-MM-DD`. Returns the date exactly when the text is the
    /// rendering of a valid calendar day.
    pub fn parse_iso(s: &str) -> (r: Option<Date>)
        ensures
            match r {
                Some(d) => d.valid() && iso_bytes(d) == s.spec_bytes(),
                None => forall|d: Date| d.valid() ==> iso_bytes(d) != s.spec_bytes(),
            },
    {
        let b = s.as_bytes();
        if b.len() != 10 {
            return None;
        }
        if !(is_digit(b[0]) && is_digit(b[1]) && is_digit(b[2]) && is_digit(b[3]) && b[4] == 0x2d
            && is_digit(b[5]) && is_digit(b[6]) && b[7] == 0x2d && is_digit(b[8]) && is_digit(b[9])) {
            proof {
                assert forall|d: Date| d.valid() implies iso_bytes(d) != s.spec_bytes() by {
                    lemma_year_digits(d.year as int);
                    lemma_two_digit_split(d.month as int);
                    lemma_two_digit_split(d.day as int);
                }
            }
            return None;
        }
        let y: u16 = (b[0] - 0x30) as u16 * 1000 + (b[1] - 0x30) as u16 * 100 + (b[2] - 0x30) as u16
            * 10 + (b[3] - 0x30) as u16;
        let m: u8 = (b[5] - 0x30) * 10 + (b[6] - 0x30);
        let d: u8 = (b[8] - 0x30) * 10 + (b[9] - 0x30);
        proof {
            lemma_digits4(
                b@[0] - 0x30,
                b@[1] - 0x30,
                b@[2] - 0x30,
                b@[3] - 0x30,
            );
            lemma_digits2(b@[5] - 0x30, b@[6] - 0x30);
            lemma_digits2(b@[8] - 0x30, b@[9] - 0x30);
        }
        match Date::new(y, m, d) {
            Some(date) => {
                proof {
                    assert(iso_bytes(date) =~= s.spec_bytes());
                }
                Some(date)
            },
            None => {
                proof {
                    assert forall|dd: Date| dd.valid() implies iso_bytes(dd) != s.spec_bytes() by {
                        if iso_bytes(dd) == s.spec_bytes() {
                            lemma_year_digits(dd.year as int);
                            lemma_two_digit_split(dd.month as int);
                            lemma_two_digit_split(dd.day as int);
                            assert(dd.year == y && dd.month == m && dd.day == d);
                        }
                    }
                }
                None
            },
        }
    }

    /// Parses `YYYYMMDD`. Returns the date exactly when the text is the
    /// compact rendering of a valid calendar day.
    pub fn parse_compact(s: &str) -> (r: Option<Date>)
        ensures
            match r {
                Some(d) => d.valid() && compact_bytes(d) == s.spec_bytes(),
                None => forall|d: Date| d.valid() ==> compact_bytes(d) != s.spec_bytes(),
            },
    {
        Date::compact_from_bytes(s.as_bytes())
    }

    /// Parses `YYYYMMDD` given as raw bytes. Returns the date exactly when
    /// the bytes are the compact rendering of a valid calendar day.
    pub fn compact_from_bytes(b: &[u8]) -> (r: Option<Date>)
        ensures
            match r {
                Some(d) => d.valid() && compact_bytes(d) == b@,
                None => forall|d: Date| d.valid() ==> compact_bytes(d) != b@,
            },
    {
        if b.len() != 8 {
            return None;
        }
        if !(is_digit(b[0]) && is_digit(b[1]) && is_digit(b[2]) && is_digit(b[3]) && is_digit(b[4])
            && is_digit(b[5]) && is_digit(b[6]) && is_digit(b[7])) {
            proof {
                assert forall|d: Date| d.valid() implies compact_bytes(d) != b@ by {
                    lemma_year_digits(d.year as int);
                    lemma_two_digit_split(d.month as int);
                    lemma_two_digit_split(d.day as int);
                }
            }
            return None;
        }
        let y: u16 = (b[0] - 0x30) as u16 * 1000 + (b[1] - 0x30) as u16 * 100 + (b[2] - 0x30) as u16
            * 10 + (b[3] - 0x30) as u16;
        let m: u8 = (b[4] - 0x30) * 10 + (b[5] - 0x30);
        let d: u8 = (b[6] - 0x30) * 10 + (b[7] - 0x30);
        proof {
            lemma_digits4(
                b@[0] - 0x30,
                b@[1] - 0x30,
                b@[2] - 0x30,
                b@[3] - 0x30,
            );
            lemma_digits2(b@[4] - 0x30, b@[5] - 0x30);
            lemma_digits2(b@[6] - 0x30, b@[7] - 0x30);
        }
        match Date::new(y, m, d) {
            Some(date) => {
                proof {
                    assert(compact_bytes(date) =~= b@);
                }
                Some(date)
            },
            None => {
                proof {
                    assert forall|dd: Date| dd.valid() implies compact_bytes(dd) != b@ by {
                        if compact_bytes(dd) == b@ {
                            lemma_year_digits(dd.year as int);
                            lemma_two_digit_split(dd.month as int);
                            lemma_two_digit_split(dd.day as int);
                            assert(dd.year == y && dd.month == m && dd.day == d);
                        }
                    }
                }
                None
            },
        }
    }

}

} // verus!
