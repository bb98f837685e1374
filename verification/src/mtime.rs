//! Clock display strings.
//!
//! The harness shows wall-clock times shifted by a configured offset.  The
//! caller reads the clock; turning the shifted reading into text is pure
//! computation, done by the calendar formatter behind the wrappers here.

use vstd::prelude::*;

use chrono::{DateTime, Utc};

use crate::util::char_of_digit;

verus! {

/// Largest timestamp magnitude accepted by the formatters, in seconds:
/// about 253,000 years either way, comfortably inside the calendar's range.
pub const CLOCK_ABS_MAX: i64 = 8_000_000_000_000;

/// Two decimal digits, leading zero kept.
pub open spec fn two_digit_chars(n: int) -> Seq<char> {
    seq![char_of_digit(n / 10), char_of_digit(n % 10)]
}

/// The `%H:%M:%S` rendering of a timestamp: hours, minutes and seconds of
/// its civil day, two digits each.
pub open spec fn time_of_day_chars(secs: int) -> Seq<char> {
    let sod = secs % 86400;
    two_digit_chars(sod / 3600) + seq![':'] + two_digit_chars((sod % 3600) / 60) + seq![':']
        + two_digit_chars(sod % 60)
}

/// What the `%Y-%m-%d` rendering of a timestamp is: a function of the
/// timestamp alone.
pub uninterp spec fn date_string_of(secs: int) -> Seq<char>;

/// What the `%Y-%m-%d %H:%M:%S` rendering of a timestamp is.
pub uninterp spec fn datetime_string_of(secs: int) -> Seq<char>;

/// Relies on chrono's `DateTime::from_timestamp` and `format("%H:%M:%S")`:
/// the day is cut at the timestamp's Euclidean remainder of 86400 and each
/// field rendered as two digits; in-range timestamps are accepted.
#[verifier::external_body]
fn format_time(secs: i64) -> (r: String)
    requires
        -CLOCK_ABS_MAX <= secs <= CLOCK_ABS_MAX,
    ensures
        r@ == time_of_day_chars(secs as int),
{
    let dt = DateTime::<Utc>::from_timestamp(secs, 0).unwrap();
    dt.format("%H:%M:%S").to_string()
}

/// Relies on chrono's `DateTime::from_timestamp` and `format("%Y-%m-%d")`:
/// a rendering of the timestamp alone.
#[verifier::external_body]
fn format_date(secs: i64) -> (r: String)
    requires
        -CLOCK_ABS_MAX <= secs <= CLOCK_ABS_MAX,
    ensures
        r@ == date_string_of(secs as int),
{
    let dt = DateTime::<Utc>::from_timestamp(secs, 0).unwrap();
    dt.format("%Y-%m-%d").to_string()
}

/// Relies on chrono's `DateTime::from_timestamp` and
/// `format("%Y-%m-%d %H:%M:%S")`: a rendering of the timestamp alone.
#[verifier::external_body]
fn format_datetime(secs: i64) -> (r: String)
    requires
        -CLOCK_ABS_MAX <= secs <= CLOCK_ABS_MAX,
    ensures
        r@ == datetime_string_of(secs as int),
{
    let dt = DateTime::<Utc>::from_timestamp(secs, 0).unwrap();
    dt.format("%Y-%m-%d %H:%M:%S").to_string()
}

/// The time of day shown for a clock reading, shifted by the configured
/// offset.
pub fn get_time(now_secs: i64, offset: i64) -> (r: String)
    requires
        -CLOCK_ABS_MAX / 2 <= now_secs <= CLOCK_ABS_MAX / 2,
        -CLOCK_ABS_MAX / 2 <= offset <= CLOCK_ABS_MAX / 2,
    ensures
        r@ == time_of_day_chars(now_secs + offset),
        r@.len() == 8,
{
    format_time(now_secs + offset)
}

/// The date shown for a clock reading, shifted by the configured offset.
pub fn get_date(now_secs: i64, offset: i64) -> (r: String)
    requires
        -CLOCK_ABS_MAX / 2 <= now_secs <= CLOCK_ABS_MAX / 2,
        -CLOCK_ABS_MAX / 2 <= offset <= CLOCK_ABS_MAX / 2,
    ensures
        r@ == date_string_of(now_secs + offset),
{
    format_date(now_secs + offset)
}

/// Date and time shown together for a shifted clock reading.
pub fn get_datetime(now_secs: i64, offset: i64) -> (r: String)
    requires
        -CLOCK_ABS_MAX / 2 <= now_secs <= CLOCK_ABS_MAX / 2,
        -CLOCK_ABS_MAX / 2 <= offset <= CLOCK_ABS_MAX / 2,
    ensures
        r@ == datetime_string_of(now_secs + offset),
{
    format_datetime(now_secs + offset)
}

} // verus!
