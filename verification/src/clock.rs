//! The current time.

use vstd::prelude::*;

use crate::text::{is_digit, is_number};

verus! {

/// `s` is made of two digits.
pub open spec fn two_digits(s: Seq<char>) -> bool {
    s.len() == 2 && is_digit(s[0]) && is_digit(s[1])
}

/// `s` has the shape `hh:mm:ss`.
pub open spec fn is_time_of_day(s: Seq<char>) -> bool {
    &&& s.len() == 8
    &&& two_digits(s.subrange(0, 2))
    &&& s[2] == ':'
    &&& two_digits(s.subrange(3, 5))
    &&& s[5] == ':'
    &&& two_digits(s.subrange(6, 8))
}

/// `s` is a year: four digits, or more behind a plus sign.
pub open spec fn is_year(s: Seq<char>) -> bool {
    ||| s.len() == 4 && is_number(s)
    ||| s.len() > 5 && s[0] == '+' && is_number(s.skip(1))
}

/// `s` is a fraction of a second in milli-, micro- or nanoseconds, or none.
pub open spec fn is_fraction(s: Seq<char>) -> bool {
    ||| s.len() == 0
    ||| (s.len() == 4 || s.len() == 7 || s.len() == 10) && s[0] == '.' && is_number(s.skip(1))
}

/// `s` has the shape `-mm-ddT`.
pub open spec fn is_month_and_day(s: Seq<char>) -> bool {
    &&& s.len() == 7
    &&& s[0] == '-'
    &&& two_digits(s.subrange(1, 3))
    &&& s[3] == '-'
    &&& two_digits(s.subrange(4, 6))
    &&& s[6] == 'T'
}

/// `time` is made of the year `year`, a month and day, a time of day, the
/// fraction `fraction` and the offset of UTC.
pub open spec fn is_time_with(time: Seq<char>, year: Seq<char>, fraction: Seq<char>) -> bool {
    let n = year.len() as int;
    &&& is_year(year)
    &&& is_fraction(fraction)
    &&& time.len() == n + 15 + fraction.len() + 6
    &&& time.subrange(0, n) == year
    &&& is_month_and_day(time.subrange(n, n + 7))
    &&& is_time_of_day(time.subrange(n + 7, n + 15))
    &&& time.subrange(n + 15, n + 15 + fraction.len()) == fraction
    &&& time.subrange(n + 15 + fraction.len(), time.len() as int) == "+00:00"@
}

/// `time` is a date and time in UTC, in the shape of RFC 3339.
pub open spec fn is_utc(time: Seq<char>) -> bool {
    exists|year: Seq<char>, fraction: Seq<char>| is_time_with(time, year, fraction)
}

/// The current time in RFC 3339, from `chrono::Utc::now` and
/// `chrono::DateTime::to_rfc3339`. Claims the shape of the text: a year of four
/// digits (one beyond 9999 has a plus sign), a month and day, a time of day, a
/// fraction of a second of three, six or nine digits where there is one, and the
/// offset of UTC, which chrono writes as `+00:00` here. What time it is stays
/// open.
#[verifier::external_body]
pub(crate) fn now_rfc3339() -> (r: String)
    ensures
        is_utc(r@),
{
    chrono::Utc::now().to_rfc3339()
}

/// The nanoseconds since January 1, 1970 UTC, from `chrono::Utc::now` and
/// `chrono::DateTime::timestamp_nanos_opt`: `None` once they no longer fit.
/// Claims only that they are not negative: `now` reads a duration since that
/// day.
#[verifier::external_body]
pub(crate) fn unix_nanos() -> (r: Option<i64>)
    ensures
        r matches Some(n) ==> n >= 0,
{
    chrono::Utc::now().timestamp_nanos_opt()
}

/// The local time of day for the log, from `chrono::Local::now` and its
/// `format`. Claims that hours, minutes and seconds are written with two digits
/// each; what time it is stays open.
#[verifier::external_body]
pub(crate) fn local_time_of_day() -> (r: String)
    ensures
        is_time_of_day(r@),
{
    chrono::Local::now().format("%H:%M:%S").to_string()
}

} // verus!
