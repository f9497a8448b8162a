//! Times as text, and back.

use crate::version_store;
use vstd::prelude::*;

verus! {

/// How the directory of a snapshot is named: no colons.
pub open spec fn stamp_format() -> Seq<char> {
    "%Y-%m-%dT%H%M%S"@
}

/// How times are written in an index.
pub open spec fn iso_format() -> Seq<char> {
    "%Y-%m-%dT%H:%M:%SZ"@
}

/// How times are shown in a listing.
pub open spec fn listing_format() -> Seq<char> {
    "%Y-%m-%d %H:%M"@
}

/// The beginning of the year 10000, from which on years need a sign.
pub const FIVE_DIGIT_YEARS: i64 = 253402300800;

/// A time in seconds since the epoch as text, in UTC, by a format; none where the
/// time is out of range.
pub uninterp spec fn utc_text(secs: i64, format: Seq<char>) -> Option<Seq<char>>;

/// The time that the name of a snapshot stands for, where it is one.
pub uninterp spec fn stamp_value(name: Seq<char>) -> Option<i64>;

/// `chrono::DateTime::from_timestamp` and `chrono::DateTime::format`: the time as
/// text, which depends on time and format alone. In years of four digits there is
/// one, the first two formats differ only in the colons and the final `Z`, and
/// the first one can be read back.
#[verifier::external_body]
pub(crate) fn format_utc(secs: i64, format: &str) -> (res: Option<String>)
    requires
        format@ == stamp_format() || format@ == iso_format() || format@ == listing_format(),
    ensures
        match res {
            Some(s) => utc_text(secs, format@) == Some(s@),
            None => utc_text(secs, format@) is None,
        },
        0 <= secs < FIVE_DIGIT_YEARS ==> res is Some,
        0 <= secs < FIVE_DIGIT_YEARS && format@ == stamp_format() ==> stamp_value(res->0@) == Some(
            secs,
        ),
        0 <= secs < FIVE_DIGIT_YEARS && format@ == iso_format() ==> utc_text(secs, stamp_format())
            == Some(version_store::store_name(res->0@)),
{
    chrono::DateTime::from_timestamp(secs, 0).map(|time| time.format(format).to_string())
}

/// `chrono::NaiveDateTime::parse_from_str` with the format of snapshot names: the
/// time in seconds since the epoch, which depends on the text alone.
#[verifier::external_body]
pub(crate) fn parse_stamp(name: &str) -> (res: Option<i64>)
    ensures
        res == stamp_value(name@),
{
    match chrono::NaiveDateTime::parse_from_str(name, "%Y-%m-%dT%H%M%S") {
        Ok(time) => Some(time.and_utc().timestamp()),
        Err(_) => None,
    }
}

/// A time as text; a time out of range counts as the epoch.
pub open spec fn time_text(secs: i64, format: Seq<char>) -> Seq<char> {
    match utc_text(secs, format) {
        Some(t) => t,
        None => utc_text(0, format)->0,
    }
}

/// A time as text; a time out of range counts as the epoch.
pub(crate) fn text_of_time(secs: i64, format: &str) -> (s: String)
    requires
        format@ == stamp_format() || format@ == iso_format(),
    ensures
        s@ == time_text(secs, format@),
        0 <= secs < FIVE_DIGIT_YEARS && format@ == stamp_format() ==> stamp_value(s@) == Some(secs),
        0 <= secs < FIVE_DIGIT_YEARS && format@ == iso_format() ==> version_store::store_name(s@)
            == time_text(secs, stamp_format()),
{
    match format_utc(secs, format) {
        Some(s) => s,
        None => match format_utc(0, format) {
            Some(s) => s,
            None => String::new(),
        },
    }
}

/// A time that can be written is written as it is, and the names of snapshots are made
/// of years, months, days, hours, minutes and seconds, in that order.
pub proof fn times_are_written(secs: i64, format: Seq<char>)
    ensures
        utc_text(secs, format) matches Some(t) ==> time_text(secs, format) == t,
        utc_text(secs, format) is None ==> time_text(secs, format) == time_text(0, format)
            || utc_text(0, format) is None,
        stamp_format() == seq![
            '%', 'Y', '-', '%', 'm', '-', '%', 'd', 'T', '%', 'H', '%', 'M', '%', 'S',
        ],
        iso_format() == seq![
            '%', 'Y', '-', '%', 'm', '-', '%', 'd', 'T', '%', 'H', ':', '%', 'M', ':', '%', 'S',
            'Z',
        ],
        listing_format() == seq![
            '%', 'Y', '-', '%', 'm', '-', '%', 'd', ' ', '%', 'H', ':', '%', 'M',
        ],
{
    reveal_strlit("%Y-%m-%dT%H%M%S");
    reveal_strlit("%Y-%m-%dT%H:%M:%SZ");
    reveal_strlit("%Y-%m-%d %H:%M");
}

} // verus!
