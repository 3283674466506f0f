//! Instants, as nanoseconds of the Unix epoch.
use vstd::prelude::*;
use time::format_description::well_known::Rfc3339;
use time::OffsetDateTime;

verus! {

/// The instant that an RFC 3339 text names, in nanoseconds of the Unix epoch,
/// and its offset from UTC in seconds; nothing where the text names none.
pub uninterp spec fn rfc3339_of(text: Seq<char>) -> Option<(i128, i32)>;

/// Parses `text` with `time::OffsetDateTime::parse` in the well-known RFC 3339
/// format. The result is a function of the text alone; which texts the format
/// takes is left to the name.
#[verifier::external_body]
pub(crate) fn parse_rfc3339(text: &str) -> (r: Option<(i128, i32)>)
    ensures
        r == rfc3339_of(text@),
{
    match OffsetDateTime::parse(text, &Rfc3339) {
        Ok(t) => Some((t.unix_timestamp_nanos(), t.offset().whole_seconds())),
        Err(_) => None,
    }
}

/// The first instant of the calendar, local time: midnight of -9999-01-01.
pub const FIRST_INSTANT: i128 = -377_705_116_800_000_000_000;

/// The last instant of the calendar, local time: the end of 9999-12-31.
pub const LAST_INSTANT: i128 = 253_402_300_799_999_999_999;

/// The instant `seconds` after `nanos`; nothing where the local time at the
/// given offset leaves the calendar.
pub open spec fn seconds_after(nanos: i128, offset: i32, seconds: i64) -> Option<int> {
    let local = nanos + (offset + seconds) * 1_000_000_000;
    if FIRST_INSTANT <= local <= LAST_INSTANT {
        Some(nanos + seconds * 1_000_000_000)
    } else {
        None
    }
}

/// The instant `seconds` after `nanos`, inside the calendar.
pub fn add_seconds(nanos: i128, offset: i32, seconds: i64) -> (r: Option<i128>)
    ensures
        match r {
            Some(n) => seconds_after(nanos, offset, seconds) == Some(n as int),
            None => seconds_after(nanos, offset, seconds) is None,
        },
{
    let added: i128 = seconds as i128 * 1_000_000_000;
    let shift: i128 = offset as i128 * 1_000_000_000;
    let lowest: i128 = FIRST_INSTANT - shift - added;
    let highest: i128 = LAST_INSTANT - shift - added;
    if nanos < lowest || nanos > highest {
        None
    } else {
        Some(nanos + added)
    }
}

} // verus!
