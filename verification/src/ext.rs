//! Declarations of the outside types the typed views hand out, and the
//! thin trusted calls into the libraries that produce them.

use vstd::prelude::*;

use chrono::Datelike;
use chrono::Timelike;

verus! {

#[verifier::external_type_specification]
#[verifier::external_body]
pub struct ExVersion(debversion::Version);

/// A parsed changelog timestamp, as plain calendar and clock fields plus
/// the UTC offset in seconds.
#[derive(Debug, Clone, Copy, PartialEq, Eq, Hash, Structural)]
pub struct DateTimeParts {
    pub year: i32,
    pub month: u32,
    pub day: u32,
    pub hour: u32,
    pub minute: u32,
    pub second: u32,
    pub offset_seconds: i32,
}

#[verifier::external_type_specification]
#[verifier::external_body]
pub struct ExIoError(std::io::Error);

/// Whether a text is a well-formed Debian version: exactly the texts that
/// the version library accepts.
pub uninterp spec fn is_debian_version(s: Seq<char>) -> bool;

/// Relies on debversion's `Version::from_str`: whether a text parses as a
/// version depends on the text alone.
#[verifier::external_body]
pub(crate) fn parse_version(s: &str) -> (r: Option<debversion::Version>)
    ensures
        r is Some <==> is_debian_version(s@),
{
    s.parse().ok()
}

/// Whether a text is a timestamp in the changelog's fixed format
/// (`Mon, 04 Sep 2023 18:13:45 -0500`): exactly the texts that the date
/// library accepts under that format.
pub uninterp spec fn is_changelog_datetime(s: Seq<char>) -> bool;

/// The date and time such a text names.
pub uninterp spec fn changelog_datetime_of(s: Seq<char>) -> DateTimeParts;

/// Relies on chrono's `DateTime::parse_from_str` with the fixed format
/// `%a, %d %b %Y %H:%M:%S %z`: both success and the parsed fields depend on
/// the text alone.
#[verifier::external_body]
pub(crate) fn parse_time_string(s: &str) -> (r: Option<DateTimeParts>)
    ensures
        r is Some <==> is_changelog_datetime(s@),
        r matches Some(d) ==> d == changelog_datetime_of(s@),
{
    match chrono::DateTime::parse_from_str(s, "%a, %d %b %Y %H:%M:%S %z") {
        Ok(dt) => Some(DateTimeParts {
            year: dt.year(),
            month: dt.month(),
            day: dt.day(),
            hour: dt.hour(),
            minute: dt.minute(),
            second: dt.second(),
            offset_seconds: dt.offset().local_minus_utc(),
        }),
        Err(_) => None,
    }
}

/// Relies on std's `Read::read_to_string`: reads the stream to its end.
/// Nothing is promised of the outcome; it depends on the reader.
#[verifier::external_body]
pub(crate) fn read_all<R: std::io::Read>(r: &mut R) -> (res: Result<String, std::io::Error>) {
    let mut buf = String::new();
    match r.read_to_string(&mut buf) {
        Ok(_) => Ok(buf),
        Err(e) => Err(e),
    }
}

/// Relies on std's `io::Error::new`: packs a message into an invalid-data
/// error.
#[verifier::external_body]
pub(crate) fn invalid_data_error(msg: String) -> (e: std::io::Error) {
    std::io::Error::new(std::io::ErrorKind::InvalidData, msg)
}

} // verus!
