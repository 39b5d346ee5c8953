//! The calendar timestamp that logs and filesystems stamp their records
//! with, and its parser for dates written as `yyyy-mm-dd`.

use vstd::prelude::*;
use vstd::string::*;

verus! {

/// The byte of the digit `0`.
const ASCII_ZERO: u8 = 48;

/// The byte of the digit `9`.
const ASCII_NINE: u8 = 57;

/// The byte of the hyphen.
const ASCII_HYPHEN: u8 = 45;

/// Why a text was refused as a date.
#[derive(Debug, Clone, Copy, PartialEq, Eq, Structural)]
pub enum DateError {
    /// The text is not ten characters laid out as `yyyy-mm-dd`.
    Format,
    /// The month or the day does not exist in the calendar.
    Range,
}

/// What a timestamp holds, as numbers.
pub struct TimestampView {
    pub year: nat,
    pub month: nat,
    pub day: nat,
    /// Thousandths of an hour.
    pub hour: nat,
    /// Thousandths of a minute.
    pub min: nat,
    /// Thousandths of a second.
    pub sec: nat,
}

/// The Gregorian leap-year rule.
pub open spec fn spec_is_leap_year(year: nat) -> bool {
    year % 400 == 0 || (year % 4 == 0 && year % 100 != 0)
}

/// The number of days of a month, for `month` from 1 to 12.
pub open spec fn spec_days_in_month(year: nat, month: nat) -> nat {
    if month == 2 {
        if spec_is_leap_year(year) {
            29
        } else {
            28
        }
    } else if month == 1 || month == 3 || month == 5 || month == 7 || month == 8 || month == 10
        || month == 12 {
        31
    } else {
        30
    }
}

/// The day exists in the calendar.
pub open spec fn is_calendar_date(year: nat, month: nat, day: nat) -> bool {
    &&& 1 <= month <= 12
    &&& 1 <= day <= spec_days_in_month(year, month)
}

/// One of the ten ASCII digits.
pub open spec fn is_digit(c: char) -> bool {
    '0' <= c <= '9'
}

/// The number that an ASCII digit stands for.
pub open spec fn digit_value(c: char) -> nat {
    (c as nat - '0' as nat) as nat
}

/// Ten characters: digits everywhere but at the fifth and the eighth place,
/// where a hyphen stands.
pub open spec fn has_date_layout(text: Seq<char>) -> bool {
    &&& text.len() == 10
    &&& forall|i: int|
        #![trigger text[i]]
        0 <= i < 10 ==> if i == 4 || i == 7 {
            text[i] == '-'
        } else {
            is_digit(text[i])
        }
}

/// The year that the first four characters spell.
pub open spec fn year_field(text: Seq<char>) -> nat {
    digit_value(text[0]) * 1000 + digit_value(text[1]) * 100 + digit_value(text[2]) * 10
        + digit_value(text[3])
}

/// The month that the sixth and seventh characters spell.
pub open spec fn month_field(text: Seq<char>) -> nat {
    digit_value(text[5]) * 10 + digit_value(text[6])
}

/// The day that the last two characters spell.
pub open spec fn day_field(text: Seq<char>) -> nat {
    digit_value(text[8]) * 10 + digit_value(text[9])
}

/// What a text means as a date: a format error unless it is laid out as
/// `yyyy-mm-dd`, a range error unless that day exists, and else midnight of
/// that day.
pub open spec fn parse_date(text: Seq<char>) -> Result<TimestampView, DateError> {
    if !has_date_layout(text) {
        Err(DateError::Format)
    } else if !is_calendar_date(year_field(text), month_field(text), day_field(text)) {
        Err(DateError::Range)
    } else {
        Ok(
            TimestampView {
                year: year_field(text),
                month: month_field(text),
                day: day_field(text),
                hour: 0,
                min: 0,
                sec: 0,
            },
        )
    }
}

/// Whether `year` is a leap year.
pub fn is_leap_year(year: u64) -> (leap: bool)
    ensures
        leap == spec_is_leap_year(year as nat),
{
    year % 400 == 0 || (year % 4 == 0 && year % 100 != 0)
}

/// The number of days of `month` in `year`.
pub fn days_in_month(year: u64, month: u8) -> (days: u8)
    requires
        1 <= month <= 12,
    ensures
        days == spec_days_in_month(year as nat, month as nat),
{
    if month == 2 {
        if is_leap_year(year) {
            29
        } else {
            28
        }
    } else if month == 1 || month == 3 || month == 5 || month == 7 || month == 8 || month == 10
        || month == 12 {
        31
    } else {
        30
    }
}

/// The number spelled by the two characters from place `at` on, if both are
/// digits.
fn two_digits(text: &str, at: usize) -> (value: Option<u8>)
    requires
        is_ascii(text),
        text@.len() == 10,
        at + 1 < text@.len(),
    ensures
        value is Some <==> is_digit(text@[at as int]) && is_digit(text@[at + 1]),
        value is Some ==> value->Some_0 == digit_value(text@[at as int]) * 10 + digit_value(
            text@[at + 1],
        ),
{
    let tens: u8 = text.get_ascii(at);
    let ones: u8 = text.get_ascii(at + 1);
    if ASCII_ZERO <= tens && tens <= ASCII_NINE && ASCII_ZERO <= ones && ones <= ASCII_NINE {
        Some((tens - ASCII_ZERO) * 10 + (ones - ASCII_ZERO))
    } else {
        None
    }
}

/// Whether a hyphen stands at place `at`.
fn hyphen_at(text: &str, at: usize) -> (hyphen: bool)
    requires
        is_ascii(text),
        at < text@.len(),
    ensures
        hyphen == (text@[at as int] == '-'),
{
    text.get_ascii(at) == ASCII_HYPHEN
}

/// Timestamp for use in logs and filesystems: a day of the calendar and a
/// time of that day.
#[derive(Debug, Clone, Copy)]
pub struct KTimestamp {
    day: u8,
    month: u8,
    year: u64,
    hour: u32,
    min: u32,
    sec: u32,
}

impl View for KTimestamp {
    type V = TimestampView;

    closed spec fn view(&self) -> TimestampView {
        TimestampView {
            year: self.year as nat,
            month: self.month as nat,
            day: self.day as nat,
            hour: self.hour as nat,
            min: self.min as nat,
            sec: self.sec as nat,
        }
    }
}

impl KTimestamp {
    /// Every timestamp names a day that exists.
    #[verifier::type_invariant]
    closed spec fn names_a_day(&self) -> bool {
        is_calendar_date(self.year as nat, self.month as nat, self.day as nat)
    }

    /// Reads a date written as `yyyy-mm-dd` and says why a text is refused.
    pub fn try_from_yyyy_mm_dd(text: &str) -> (parsed: Result<Self, DateError>)
        ensures
            match parse_date(text@) {
                Ok(date) => parsed is Ok && parsed->Ok_0@ == date,
                Err(error) => parsed is Err && parsed->Err_0 == error,
            },
    {
        if !text.is_ascii() {
            proof {
                if has_date_layout(text@) {
                    let i = choose|i: int|
                        0 <= i < text@.len() && !('\0' <= #[trigger] text@[i] <= '\u{7f}');
                    assert(is_digit(text@[i]) || text@[i] == '-');
                }
            }
            return Err(DateError::Format);
        }
        proof {
            is_ascii_spec_bytes(text);
        }
        if text.as_bytes().len() != 10 {
            return Err(DateError::Format);
        }
        let century = two_digits(text, 0);
        let years = two_digits(text, 2);
        let month = two_digits(text, 5);
        let day = two_digits(text, 8);
        if !hyphen_at(text, 4) || !hyphen_at(text, 7) {
            return Err(DateError::Format);
        }
        match (century, years, month, day) {
            (Some(century), Some(years), Some(month), Some(day)) => {
                let year: u64 = century as u64 * 100 + years as u64;
                assert(has_date_layout(text@)) by {
                    assert forall|i: int| 0 <= i < 10 implies if i == 4 || i == 7 {
                        #[trigger] text@[i] == '-'
                    } else {
                        is_digit(text@[i])
                    } by {
                        assert(i == 0 || i == 1 || i == 2 || i == 3 || i == 4 || i == 5 || i == 6
                            || i == 7 || i == 8 || i == 9);
                    }
                }
                if month < 1 || month > 12 {
                    return Err(DateError::Range);
                }
                if day < 1 || day > days_in_month(year, month) {
                    return Err(DateError::Range);
                }
                Ok(KTimestamp { day, month, year, hour: 0, min: 0, sec: 0 })
            },
            _ => {
                assert(!has_date_layout(text@)) by {
                    if has_date_layout(text@) {
                        assert(is_digit(text@[0]) && is_digit(text@[1]) && is_digit(text@[2]));
                        assert(is_digit(text@[3]) && is_digit(text@[5]) && is_digit(text@[6]));
                        assert(is_digit(text@[8]) && is_digit(text@[9]));
                    }
                }
                Err(DateError::Format)
            },
        }
    }

    /// Reads a date written as `yyyy-mm-dd`: the timestamp of that day's
    /// midnight, or nothing where the text is no such date.
    pub fn from_yyyy_mm_dd(_str: &str) -> (stamp: Option<Self>)
        ensures
            match parse_date(_str@) {
                Ok(date) => stamp is Some && stamp->Some_0@ == date,
                Err(_) => stamp is None,
            },
    {
        match Self::try_from_yyyy_mm_dd(_str) {
            Ok(stamp) => Some(stamp),
            Err(_) => None,
        }
    }

    /// The day of the month, from 1 to the month's last day.
    pub fn day(&self) -> (day: u8)
        ensures
            day == self@.day,
            is_calendar_date(self@.year, self@.month, self@.day),
    {
        proof {
            use_type_invariant(self);
        }
        self.day
    }

    /// The month, from 1 to 12.
    pub fn month(&self) -> (month: u8)
        ensures
            month == self@.month,
            1 <= month <= 12,
    {
        proof {
            use_type_invariant(self);
        }
        self.month
    }

    /// The year.
    pub fn year(&self) -> (year: u64)
        ensures
            year == self@.year,
    {
        self.year
    }

    /// The hour of the day, in thousandths of an hour.
    pub fn hour(&self) -> (hour: u32)
        ensures
            hour == self@.hour,
    {
        self.hour
    }

    /// The minute of the hour, in thousandths of a minute.
    pub fn min(&self) -> (min: u32)
        ensures
            min == self@.min,
    {
        self.min
    }

    /// The second of the minute, in thousandths of a second.
    pub fn sec(&self) -> (sec: u32)
        ensures
            sec == self@.sec,
    {
        self.sec
    }
}

} // verus!
