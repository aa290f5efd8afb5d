//! Local modification times as calendar fields, and their text.

use vstd::prelude::*;
use chrono::{Datelike, Timelike};
use crate::text::{decimal, push_char, push_decimal, push_two_digits, two_digits};

verus! {

/// A local date and time of day.
#[derive(Clone, Copy, Debug, PartialEq, Eq)]
pub struct DateParts {
    pub year: i32,
    pub month: u32,
    pub day: u32,
    pub hour: u32,
    pub minute: u32,
    pub second: u32,
}

impl DateParts {
    /// Every field lies in its calendar range.
    pub open spec fn wf(&self) -> bool {
        &&& 1 <= self.month <= 12
        &&& 1 <= self.day <= 31
        &&& self.hour < 24
        &&& self.minute < 60
        &&& self.second < 60
    }
}

/// The first day chrono represents (January 1, 262143 BCE), counted with
/// January 1 of year 1 as day one.
pub const FIRST_DAY: i64 = -95746129;

/// The last day chrono represents (December 31, 262142 CE), counted the same way.
pub const LAST_DAY: i64 = 95745399;

/// The day of the Unix epoch, counted the same way.
pub const EPOCH_DAY: i64 = 719163;

/// Whether a moment, in seconds and nanoseconds since the Unix epoch, falls
/// on a representable day, with nanoseconds below one second (or below two
/// in the last second of a minute, for a leap second).
pub open spec fn timestamp_in_range(secs: i64, nanos: u32) -> bool {
    let day = secs as int / 86400 + EPOCH_DAY;
    let second_of_day = secs as int % 86400;
    &&& FIRST_DAY <= day <= LAST_DAY
    &&& (nanos < 1_000_000_000 || (nanos < 2_000_000_000 && second_of_day % 60 == 59))
}

/// Relies on chrono: `DateTime::<Utc>::from_timestamp`, which fails exactly
/// when the day is out of range or the nanoseconds are invalid for that
/// second, then `with_timezone(&Local)` and the calendar fields of the
/// result, each within its documented range. The local time zone decides
/// the values.
#[verifier::external_body]
fn local_fields(secs: i64, nanos: u32) -> (r: Option<DateParts>)
    ensures
        r is Some <==> timestamp_in_range(secs, nanos),
        r matches Some(p) ==> p.wf(),
{
    match chrono::DateTime::<chrono::Utc>::from_timestamp(secs, nanos) {
        Some(t) => {
            let l = t.with_timezone(&chrono::Local);
            Some(DateParts { year: l.year(), month: l.month(), day: l.day(), hour: l.hour(), minute: l.minute(), second: l.second() })
        },
        None => None,
    }
}

/// The local calendar time of a moment given in seconds and nanoseconds
/// since the Unix epoch; none when it lies outside the supported range.
pub fn local_parts(secs: i64, nanos: u32) -> (r: Option<DateParts>)
    ensures
        r is Some <==> timestamp_in_range(secs, nanos),
        r matches Some(p) ==> p.wf(),
{
    local_fields(secs, nanos)
}

/// `n` written with at least four digits.
pub open spec fn four_digits(n: nat) -> Seq<char> {
    if n < 10 {
        seq!['0', '0', '0'] + decimal(n)
    } else if n < 100 {
        seq!['0', '0'] + decimal(n)
    } else if n < 1000 {
        seq!['0'] + decimal(n)
    } else {
        decimal(n)
    }
}

/// A year: four digits from 0 to 9999, otherwise signed.
pub open spec fn year_text(y: int) -> Seq<char> {
    if 0 <= y <= 9999 {
        four_digits(y as nat)
    } else if y > 9999 {
        seq!['+'] + decimal(y as nat)
    } else {
        seq!['-'] + four_digits((-y) as nat)
    }
}

/// `YYYY-MM-DD HH:MM:SS`.
pub open spec fn date_text(p: DateParts) -> Seq<char> {
    year_text(p.year as int) + seq!['-'] + two_digits(p.month as nat) + seq!['-'] + two_digits(
        p.day as nat,
    ) + seq![' '] + two_digits(p.hour as nat) + seq![':'] + two_digits(p.minute as nat) + seq![
        ':',
    ] + two_digits(p.second as nat)
}

fn push_four_digits(s: &mut String, n: u64)
    ensures
        final(s)@ == old(s)@ + four_digits(n as nat),
{
    if n < 10 {
        push_char(s, '0');
        push_char(s, '0');
        push_char(s, '0');
    } else if n < 100 {
        push_char(s, '0');
        push_char(s, '0');
    } else if n < 1000 {
        push_char(s, '0');
    }
    push_decimal(s, n);
    proof {
        assert(final(s)@ =~= old(s)@ + four_digits(n as nat));
    }
}

/// Writes a date and time as `YYYY-MM-DD HH:MM:SS`.
pub fn format_date(p: &DateParts) -> (r: String)
    requires
        p.wf(),
    ensures
        r@ == date_text(*p),
{
    let mut out = String::new();
    let y = p.year as i64;
    if 0 <= y && y <= 9999 {
        push_four_digits(&mut out, y as u64);
    } else if y > 9999 {
        push_char(&mut out, '+');
        push_decimal(&mut out, y as u64);
    } else {
        push_char(&mut out, '-');
        push_four_digits(&mut out, (-y) as u64);
    }
    let ghost year = out@;
    push_char(&mut out, '-');
    push_two_digits(&mut out, p.month as u64);
    push_char(&mut out, '-');
    push_two_digits(&mut out, p.day as u64);
    push_char(&mut out, ' ');
    push_two_digits(&mut out, p.hour as u64);
    push_char(&mut out, ':');
    push_two_digits(&mut out, p.minute as u64);
    push_char(&mut out, ':');
    push_two_digits(&mut out, p.second as u64);
    proof {
        assert(year =~= year_text(p.year as int));
        assert(out@ =~= date_text(*p));
    }
    out
}

} // verus!
