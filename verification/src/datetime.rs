//! Calendar dates and second-precision timestamps.
//!
//! Match records carry a timestamp of when the replay was recorded; query
//! requests carry a date range. Both are held as plain calendar fields and
//! ordered lexicographically, so that every comparison and every rendered
//! form is reproducible. Rendering uses a fixed ISO-8601-like shape with
//! second precision, the form used on the wire.

use vstd::prelude::*;

use chrono::Datelike;

verus! {

/// A calendar date used as a query bound.
#[derive(Debug, Clone, Copy, PartialEq, Eq, Structural)]
pub struct Date {
    /// Calendar year.
    pub year: u32,
    /// Calendar month, 1 to 12.
    pub month: u32,
    /// Day of the month, 1 to 31.
    pub day: u32,
}

/// A second-precision timestamp of a recorded match.
#[derive(Debug, Clone, Copy, PartialEq, Eq, Structural)]
pub struct DateTime {
    /// Calendar year.
    pub year: u32,
    /// Calendar month, 1 to 12.
    pub month: u32,
    /// Day of the month, 1 to 31.
    pub day: u32,
    /// Hour of the day, 0 to 23.
    pub hour: u32,
    /// Minute, 0 to 59.
    pub minute: u32,
    /// Second, 0 to 59.
    pub second: u32,
}

impl Date {
    /// The fields lie in calendar ranges and the year fits the four-digit
    /// rendered form.
    pub open spec fn valid(self) -> bool {
        &&& 1 <= self.month <= 12
        &&& 1 <= self.day <= 31
        &&& self.year <= 9999
    }

    /// The timestamp at midnight opening this date.
    pub open spec fn spec_midnight(self) -> DateTime {
        DateTime {
            year: self.year,
            month: self.month,
            day: self.day,
            hour: 0,
            minute: 0,
            second: 0,
        }
    }

    /// The timestamp at midnight opening this date.
    pub fn midnight(self) -> (r: DateTime)
        ensures
            r == self.spec_midnight(),
    {
        DateTime {
            year: self.year,
            month: self.month,
            day: self.day,
            hour: 0,
            minute: 0,
            second: 0,
        }
    }
}

impl DateTime {
    /// The fields lie in calendar ranges and the year fits the four-digit
    /// rendered form.
    pub open spec fn valid(self) -> bool {
        &&& 1 <= self.month <= 12
        &&& 1 <= self.day <= 31
        &&& self.year <= 9999
        &&& self.hour <= 23
        &&& self.minute <= 59
        &&& self.second <= 59
    }
}

/// Strict lexicographic order on timestamps: year, then month, day, hour,
/// minute, second.
pub open spec fn dt_lt(a: DateTime, b: DateTime) -> bool {
    if a.year != b.year {
        a.year < b.year
    } else if a.month != b.month {
        a.month < b.month
    } else if a.day != b.day {
        a.day < b.day
    } else if a.hour != b.hour {
        a.hour < b.hour
    } else if a.minute != b.minute {
        a.minute < b.minute
    } else {
        a.second < b.second
    }
}

/// Non-strict lexicographic order on timestamps.
pub open spec fn dt_le(a: DateTime, b: DateTime) -> bool {
    dt_lt(a, b) || a == b
}

impl DateTime {
    /// Strict comparison in the lexicographic order.
    pub fn lt(&self, other: &DateTime) -> (r: bool)
        ensures
            r == dt_lt(*self, *other),
    {
        if self.year != other.year {
            self.year < other.year
        } else if self.month != other.month {
            self.month < other.month
        } else if self.day != other.day {
            self.day < other.day
        } else if self.hour != other.hour {
            self.hour < other.hour
        } else if self.minute != other.minute {
            self.minute < other.minute
        } else {
            self.second < other.second
        }
    }

    /// Non-strict comparison in the lexicographic order.
    pub fn le(&self, other: &DateTime) -> (r: bool)
        ensures
            r == dt_le(*self, *other),
    {
        !other.lt(self)
    }
}

/// The character of a single decimal digit.
pub open spec fn digit_char(d: int) -> char {
    if d == 0 {
        '0'
    } else if d == 1 {
        '1'
    } else if d == 2 {
        '2'
    } else if d == 3 {
        '3'
    } else if d == 4 {
        '4'
    } else if d == 5 {
        '5'
    } else if d == 6 {
        '6'
    } else if d == 7 {
        '7'
    } else if d == 8 {
        '8'
    } else {
        '9'
    }
}

/// Two-digit zero-padded decimal rendering.
pub open spec fn two_digits(n: int) -> Seq<char> {
    seq![digit_char(n / 10 % 10), digit_char(n % 10)]
}

/// Four-digit zero-padded decimal rendering.
pub open spec fn four_digits(n: int) -> Seq<char> {
    seq![
        digit_char(n / 1000 % 10),
        digit_char(n / 100 % 10),
        digit_char(n / 10 % 10),
        digit_char(n % 10),
    ]
}

/// The fixed second-precision rendered form of a timestamp,
/// `YYYY-MM-DDTHH:MM:SS`.
pub open spec fn iso_of(dt: DateTime) -> Seq<char> {
    four_digits(dt.year as int) + seq!['-'] + two_digits(dt.month as int) + seq!['-'] + two_digits(
        dt.day as int,
    ) + seq!['T'] + two_digits(dt.hour as int) + seq![':'] + two_digits(dt.minute as int) + seq![
        ':',
    ] + two_digits(dt.second as int)
}

/// The character of a single decimal digit.
pub(crate) fn digit_char_exec(d: u32) -> (r: char)
    requires
        d <= 9,
    ensures
        r == digit_char(d as int),
{
    if d == 0 {
        '0'
    } else if d == 1 {
        '1'
    } else if d == 2 {
        '2'
    } else if d == 3 {
        '3'
    } else if d == 4 {
        '4'
    } else if d == 5 {
        '5'
    } else if d == 6 {
        '6'
    } else if d == 7 {
        '7'
    } else if d == 8 {
        '8'
    } else {
        '9'
    }
}

/// Pushes the two-digit rendering of `n` onto `out`.
fn push_two_digits(out: &mut Vec<char>, n: u32)
    ensures
        final(out)@ == old(out)@ + two_digits(n as int),
{
    out.push(digit_char_exec(n / 10 % 10));
    out.push(digit_char_exec(n % 10));
    assert(final(out)@ =~= old(out)@ + two_digits(n as int));
}

/// Pushes the four-digit rendering of `n` onto `out`.
fn push_four_digits(out: &mut Vec<char>, n: u32)
    ensures
        final(out)@ == old(out)@ + four_digits(n as int),
{
    out.push(digit_char_exec(n / 1000 % 10));
    out.push(digit_char_exec(n / 100 % 10));
    out.push(digit_char_exec(n / 10 % 10));
    out.push(digit_char_exec(n % 10));
    assert(final(out)@ =~= old(out)@ + four_digits(n as int));
}

/// Relies on std's `String::from_iter` over characters (through
/// `Iterator::collect`): the collected string holds exactly the given
/// characters, in order.
#[verifier::external_body]
pub(crate) fn string_from_chars(v: &Vec<char>) -> (r: String)
    ensures
        r@ == v@,
{
    v.iter().collect()
}

impl DateTime {
    /// Renders the timestamp in the fixed `YYYY-MM-DDTHH:MM:SS` form used
    /// on the wire.
    pub fn to_iso_string(&self) -> (r: String)
        ensures
            r@ == iso_of(*self),
    {
        let mut out: Vec<char> = Vec::new();
        push_four_digits(&mut out, self.year);
        out.push('-');
        push_two_digits(&mut out, self.month);
        out.push('-');
        push_two_digits(&mut out, self.day);
        out.push('T');
        push_two_digits(&mut out, self.hour);
        out.push(':');
        push_two_digits(&mut out, self.minute);
        out.push(':');
        push_two_digits(&mut out, self.second);
        assert(out@ =~= iso_of(*self));
        string_from_chars(&out)
    }
}

/// Relies on chrono's `Local::now` and `NaiveDate` accessors: the current
/// local calendar date as (year, month, day), with the month between 1 and
/// 12 and the day between 1 and 31. The year depends on the clock, so
/// nothing more is promised of it.
#[verifier::external_body]
fn today_ymd() -> (r: (i64, u32, u32))
    ensures
        1 <= r.1 <= 12,
        1 <= r.2 <= 31,
{
    let d = chrono::Local::now().date_naive();
    (d.year() as i64, d.month(), d.day())
}

/// The documented floor applied to open-ended date ranges.
pub fn default_min_date() -> (r: Date)
    ensures
        r == (Date { year: 2000, month: 1, day: 1 }),
        r.valid(),
{
    Date { year: 2000, month: 1, day: 1 }
}

/// The documented ceiling applied to open-ended date ranges: the current
/// local date, clamped into the valid four-digit calendar range.
pub fn default_max_date() -> (r: Date)
    ensures
        r.valid(),
{
    let (y, m, d) = today_ymd();
    let year: u32 = if y < 0 {
        0
    } else if y > 9999 {
        9999
    } else {
        y as u32
    };
    Date { year, month: m, day: d }
}

} // verus!
