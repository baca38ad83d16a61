//! Publication timestamps: a date and time of day held as plain numbers.
use vstd::prelude::*;
use crate::text::{
    nth_field, parse_unsigned, split_field, strip_trailing, two_words, unsigned_value, within,
    words,
};
use chrono::{Datelike, Timelike};

verus! {

/// A calendar date and time of day, as the listing writes them.
#[derive(Clone, Copy, Debug, PartialEq, Eq, Structural)]
pub struct Stamp {
    pub year: u16,
    pub month: u8,
    pub day: u8,
    pub hour: u8,
    pub minute: u8,
    pub second: u8,
}

/// Whether `s` is a reading of a clock: each part in its range (month 1 to
/// 12, day 1 to 31, hour 0 to 23, minute and second 0 to 59).
pub open spec fn clock_reading(s: Stamp) -> bool {
    &&& 1 <= s.month <= 12
    &&& 1 <= s.day <= 31
    &&& s.hour <= 23
    &&& s.minute <= 59
    &&& s.second <= 59
}

/// The number in field `f`, or 0 when the field is absent, is no number or exceeds `max`.
pub open spec fn number_or_zero(f: Option<Seq<char>>, max: int) -> int {
    match f {
        Some(t) => match within(unsigned_value(t), 0, max) {
            Some(v) => v,
            None => 0,
        },
        None => 0,
    }
}

/// The stamp written in `text` as `YYYY-MM-DD HH:MM:SS`: two words, the first
/// split at `-` into year, month and day, the second at `:` into hour, minute
/// and second. A part that is missing or unreadable counts as 0. Text that is
/// not two words stands for the moment `now`.
pub open spec fn stamp_of(text: Seq<char>, now: Stamp) -> Stamp {
    let w = words(text);
    if w.len() != 2 {
        now
    } else {
        Stamp {
            year: number_or_zero(nth_field(w[0], '-', 0), 0xffff) as u16,
            month: number_or_zero(nth_field(w[0], '-', 1), 0xff) as u8,
            day: number_or_zero(nth_field(w[0], '-', 2), 0xff) as u8,
            hour: number_or_zero(nth_field(w[1], ':', 0), 0xff) as u8,
            minute: number_or_zero(nth_field(w[1], ':', 1), 0xff) as u8,
            second: number_or_zero(nth_field(w[1], ':', 2), 0xff) as u8,
        }
    }
}

/// The stamp of a `title` attribute such as `2026-01-23 13:32:20Z`: the
/// trailing `Z` marks are dropped before reading it.
pub open spec fn attribute_stamp(attr: Seq<char>, now: Stamp) -> Stamp {
    stamp_of(strip_trailing(attr, 'Z'), now)
}

/// The number in field `k` of `s` split at `sep`, or 0 (see [`number_or_zero`]).
fn field_number(s: &str, sep: char, k: usize, max: u64) -> (r: u64)
    ensures
        r as int == number_or_zero(nth_field(s@, sep, k as int), max as int),
        r <= max,
{
    match split_field(s, sep, k) {
        Some(t) => match parse_unsigned(t.as_str(), max) {
            Some(v) => v,
            None => 0,
        },
        None => 0,
    }
}

/// Reads a timestamp written as `YYYY-MM-DD HH:MM:SS`; text of another shape
/// gives `now`.
pub fn parse_timestamp(timestamp: &str, now: Stamp) -> (r: Stamp)
    ensures
        r == stamp_of(timestamp@, now),
{
    match two_words(timestamp) {
        Some((date, time)) => {
            let d = date.as_str();
            let t = time.as_str();
            Stamp {
                year: field_number(d, '-', 0, 0xffff) as u16,
                month: field_number(d, '-', 1, 0xff) as u8,
                day: field_number(d, '-', 2, 0xff) as u8,
                hour: field_number(t, ':', 0, 0xff) as u8,
                minute: field_number(t, ':', 1, 0xff) as u8,
                second: field_number(t, ':', 2, 0xff) as u8,
            }
        },
        None => now,
    }
}

/// Relies on `chrono::Local::now` with the `Datelike` and `Timelike`
/// accessors: the current local date and time, each part in the range that
/// chrono documents for it. (chrono panics only on a system clock set
/// before 1970, a fault of the machine rather than of any input.)
#[verifier::external_body]
pub(crate) fn local_now() -> (r: Stamp)
    ensures
        clock_reading(r),
{
    let now = chrono::Local::now();
    Stamp {
        year: now.year() as u16,
        month: now.month() as u8,
        day: now.day() as u8,
        hour: now.hour() as u8,
        minute: now.minute() as u8,
        second: now.second() as u8,
    }
}

} // verus!
