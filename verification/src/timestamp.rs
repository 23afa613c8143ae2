//! Wayback-style URL timestamps: UTC, second precision, with a fixed 14-digit
//! `YYYYMMDDHHMMSS` text form.

use crate::text::{chars_to_string, digit_char, digit_of, digit_to_char, digit_value, is_digit,
    str_to_chars};
use vstd::prelude::*;

verus! {

/// Errors of timestamp parsing.
#[derive(Clone, Debug, PartialEq, Eq)]
pub enum Error {
    /// Timestamp text whose length is not 14, with the text.
    InvalidLength(String),
    /// 14-character text that is not a valid date and time, with the text.
    InvalidDateTime(String),
}

/// A UTC timestamp with second precision, as plain calendar fields.
#[derive(Clone, Copy, Debug, PartialEq, Eq, PartialOrd, Ord, Hash)]
pub struct Timestamp {
    pub year: u16,
    pub month: u8,
    pub day: u8,
    pub hour: u8,
    pub minute: u8,
    pub second: u8,
}

/// Whether `y` is a leap year in the proleptic Gregorian calendar.
pub open spec fn is_leap_year(y: int) -> bool {
    y % 4 == 0 && (y % 100 != 0 || y % 400 == 0)
}

/// The number of days in month `m` of year `y`.
pub open spec fn days_in_month(y: int, m: int) -> int
    recommends
        1 <= m <= 12,
{
    if m == 2 {
        if is_leap_year(y) {
            29
        } else {
            28
        }
    } else if m == 4 || m == 6 || m == 9 || m == 11 {
        30
    } else {
        31
    }
}

/// The value of two decimal digits at offset `i`.
pub open spec fn two_digits(s: Seq<char>, i: int) -> int
    recommends
        0 <= i,
        i + 2 <= s.len(),
{
    digit_value(s[i]) * 10 + digit_value(s[i + 1])
}

/// The value of four decimal digits at offset `i`.
pub open spec fn four_digits(s: Seq<char>, i: int) -> int
    recommends
        0 <= i,
        i + 4 <= s.len(),
{
    two_digits(s, i) * 100 + two_digits(s, i + 2)
}

impl Timestamp {
    /// A valid calendar date and time of day, within the four-digit year range
    /// of the text form.
    pub open spec fn wf(&self) -> bool {
        &&& self.year <= 9999
        &&& 1 <= self.month <= 12
        &&& 1 <= self.day <= days_in_month(self.year as int, self.month as int)
        &&& self.hour < 24
        &&& self.minute < 60
        &&& self.second < 60
    }

    /// The fixed 14-digit `YYYYMMDDHHMMSS` text of the timestamp.
    pub open spec fn chars(&self) -> Seq<char> {
        seq![
            digit_char(self.year as int / 1000),
            digit_char(self.year as int / 100 % 10),
            digit_char(self.year as int / 10 % 10),
            digit_char(self.year as int % 10),
            digit_char(self.month as int / 10),
            digit_char(self.month as int % 10),
            digit_char(self.day as int / 10),
            digit_char(self.day as int % 10),
            digit_char(self.hour as int / 10),
            digit_char(self.hour as int % 10),
            digit_char(self.minute as int / 10),
            digit_char(self.minute as int % 10),
            digit_char(self.second as int / 10),
            digit_char(self.second as int % 10),
        ]
    }

    /// Builds a timestamp from calendar fields, rejecting any combination
    /// that is not a valid date and time.
    pub fn from_parts(year: u16, month: u8, day: u8, hour: u8, minute: u8, second: u8) -> (r:
        Option<Timestamp>)
        ensures
            match r {
                Some(t) => t.wf() && t == (Timestamp { year, month, day, hour, minute, second }),
                None => !(Timestamp { year, month, day, hour, minute, second }).wf(),
            },
    {
        let t = Timestamp { year, month, day, hour, minute, second };
        if year <= 9999 && 1 <= month && month <= 12 && 1 <= day && day <= days_in_month_of(
            year,
            month,
        ) && hour < 24 && minute < 60 && second < 60 {
            Some(t)
        } else {
            None
        }
    }

    /// The 14-digit text of the timestamp.
    pub fn to_display_string(&self) -> (r: String)
        requires
            self.wf(),
        ensures
            r@ == self.chars(),
            r@.len() == 14,
    {
        let mut out: Vec<char> = Vec::new();
        out.push(digit_to_char((self.year / 1000) as u8));
        out.push(digit_to_char((self.year / 100 % 10) as u8));
        out.push(digit_to_char((self.year / 10 % 10) as u8));
        out.push(digit_to_char((self.year % 10) as u8));
        out.push(digit_to_char(self.month / 10));
        out.push(digit_to_char(self.month % 10));
        out.push(digit_to_char(self.day / 10));
        out.push(digit_to_char(self.day % 10));
        out.push(digit_to_char(self.hour / 10));
        out.push(digit_to_char(self.hour % 10));
        out.push(digit_to_char(self.minute / 10));
        out.push(digit_to_char(self.minute % 10));
        out.push(digit_to_char(self.second / 10));
        out.push(digit_to_char(self.second % 10));
        assert(out@ =~= self.chars());
        chars_to_string(&out)
    }

    /// Parses the fixed 14-digit text form.
    pub fn parse_str(input: &str) -> (r: Result<Timestamp, Error>)
        ensures
            match r {
                Ok(t) => timestamp_of_chars(input@) == Some(t) && t.wf(),
                Err(Error::InvalidLength(s)) => s@ == input@ && input@.len() != 14,
                Err(Error::InvalidDateTime(s)) => s@ == input@ && input@.len() == 14
                    && timestamp_of_chars(input@) is None,
            },
    {
        let chars = str_to_chars(input);
        if chars.len() != 14 {
            return Err(Error::InvalidLength(input.to_owned()));
        }
        match parse_timestamp_chars(&chars, 0) {
            Some(t) => Ok(t),
            None => Err(Error::InvalidDateTime(input.to_owned())),
        }
    }
}

/// The timestamp denoted by 14 digits, when they form a valid date and time.
pub open spec fn timestamp_at_chars(s: Seq<char>, from: int) -> Option<Timestamp>
    recommends
        0 <= from,
        from + 14 <= s.len(),
{
    if forall|i: int| from <= i < from + 14 ==> is_digit(#[trigger] s[i]) {
        let t = Timestamp {
            year: four_digits(s, from) as u16,
            month: two_digits(s, from + 4) as u8,
            day: two_digits(s, from + 6) as u8,
            hour: two_digits(s, from + 8) as u8,
            minute: two_digits(s, from + 10) as u8,
            second: two_digits(s, from + 12) as u8,
        };
        if t.wf() {
            Some(t)
        } else {
            None
        }
    } else {
        None
    }
}

/// The timestamp denoted by a whole 14-character text.
pub open spec fn timestamp_of_chars(s: Seq<char>) -> Option<Timestamp> {
    if s.len() == 14 {
        timestamp_at_chars(s, 0)
    } else {
        None
    }
}

/// Exec mirror of [`days_in_month`].
pub fn days_in_month_of(year: u16, month: u8) -> (r: u8)
    requires
        1 <= month <= 12,
    ensures
        r == days_in_month(year as int, month as int),
{
    if month == 2 {
        if year % 4 == 0 && (year % 100 != 0 || year % 400 == 0) {
            29
        } else {
            28
        }
    } else if month == 4 || month == 6 || month == 9 || month == 11 {
        30
    } else {
        31
    }
}

/// Parses 14 digits at offset `from` as a timestamp.
pub fn parse_timestamp_chars(s: &Vec<char>, from: usize) -> (r: Option<Timestamp>)
    requires
        from + 14 <= s@.len(),
    ensures
        r == timestamp_at_chars(s@, from as int),
{
    let n = s.len();
    let mut digits: Vec<u8> = Vec::new();
    let mut i: usize = 0;
    while i < 14
        invariant
            i <= 14,
            from + 14 <= n,
            n == s@.len(),
            digits@.len() == i,
            forall|j: int| 0 <= j < i ==> is_digit(#[trigger] s@[from + j]),
            forall|j: int| 0 <= j < i ==> #[trigger] digits@[j] == digit_value(s@[from + j]),
        decreases 14 - i,
    {
        match digit_of(s[from + i]) {
            Some(d) => {
                digits.push(d);
                assert(is_digit(s@[from + i as int]));
                assert(digits@[i as int] == digit_value(s@[from + i as int]));
            },
            None => {
                return None;
            },
        }
        i += 1;
    }
    let year: u16 = (digits[0] as u16) * 1000 + (digits[1] as u16) * 100 + (digits[2] as u16) * 10
        + (digits[3] as u16);
    let month: u8 = digits[4] * 10 + digits[5];
    let day: u8 = digits[6] * 10 + digits[7];
    let hour: u8 = digits[8] * 10 + digits[9];
    let minute: u8 = digits[10] * 10 + digits[11];
    let second: u8 = digits[12] * 10 + digits[13];
    assert(year == four_digits(s@, from as int));
    assert(month == two_digits(s@, from + 4));
    assert(day == two_digits(s@, from + 6));
    assert(hour == two_digits(s@, from + 8));
    assert(minute == two_digits(s@, from + 10));
    assert(second == two_digits(s@, from + 12));
    Timestamp::from_parts(year, month, day, hour, minute, second)
}

/// The 14-digit text of a valid timestamp parses back to the same value.
pub proof fn lemma_timestamp_round_trip(t: Timestamp)
    requires
        t.wf(),
    ensures
        t.chars().len() == 14,
        timestamp_of_chars(t.chars()) == Some(t),
{
    let s = t.chars();
    assert(forall|i: int| 0 <= i < 14 ==> is_digit(#[trigger] s[i]));
    let y = t.year as int;
    assert(four_digits(s, 0) == y) by {
        assert(digit_value(digit_char(y / 1000)) == y / 1000);
        assert(digit_value(digit_char(y / 100 % 10)) == y / 100 % 10);
        assert(digit_value(digit_char(y / 10 % 10)) == y / 10 % 10);
        assert(digit_value(digit_char(y % 10)) == y % 10);
        assert((y / 1000) * 10 + y / 100 % 10 == y / 100) by (nonlinear_arith)
            requires
                0 <= y <= 9999,
        ;
        assert((y / 100) * 10 + y / 10 % 10 == y / 10) by (nonlinear_arith)
            requires
                0 <= y <= 9999,
        ;
        assert((y / 10) * 10 + y % 10 == y) by (nonlinear_arith)
            requires
                0 <= y <= 9999,
        ;
    }
    assert(two_digits(s, 4) == t.month) by {
        lemma_two_digit_split(t.month as int);
    }
    assert(two_digits(s, 6) == t.day) by {
        lemma_two_digit_split(t.day as int);
    }
    assert(two_digits(s, 8) == t.hour) by {
        lemma_two_digit_split(t.hour as int);
    }
    assert(two_digits(s, 10) == t.minute) by {
        lemma_two_digit_split(t.minute as int);
    }
    assert(two_digits(s, 12) == t.second) by {
        lemma_two_digit_split(t.second as int);
    }
}

proof fn lemma_two_digit_split(v: int)
    requires
        0 <= v < 100,
    ensures
        (v / 10) * 10 + v % 10 == v,
        digit_value(digit_char(v / 10)) == v / 10,
        digit_value(digit_char(v % 10)) == v % 10,
{
}

} // verus!
