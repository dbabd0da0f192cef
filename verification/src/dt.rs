//! Dependency-Track timestamps as the `ak dt` tables show them.
use vstd::prelude::*;

use crate::manifest::opt_view;
use crate::text::{append_chars, chars_of, dec, string_of};

verus! {

/// The UTC minute `YYYY-MM-DD HH:MM` of a Unix time in seconds, when it is
/// within the range of dates that can be represented.
pub uninterp spec fn utc_minute(secs: i64) -> Option<Seq<char>>;

/// `chrono::DateTime::from_timestamp(secs, 0)` formatted with
/// `"%Y-%m-%d %H:%M"`; `None` when the time is out of chrono's range. The
/// text is only named (`utc_minute`), not stated.
#[verifier::external_body]
fn utc_minute_text(secs: i64) -> (r: Option<String>)
    ensures
        opt_view(r) == utc_minute(secs),
{
    chrono::DateTime::from_timestamp(secs, 0).map(|d| d.format("%Y-%m-%d %H:%M").to_string())
}

/// Decimal text of a signed integer (`i64::to_string`).
pub open spec fn int_text(n: int) -> Seq<char> {
    if n < 0 {
        "-"@ + dec((-n) as nat)
    } else {
        dec(n as nat)
    }
}

pub fn i64_text(n: i64) -> (r: String)
    ensures
        r@ == int_text(n as int),
{
    if n < 0 {
        let m: u64 = if n == i64::MIN {
            9223372036854775808u64
        } else {
            (-n) as u64
        };
        assert(m == -(n as int));
        let mut v = chars_of("-");
        let d = crate::text::dec_chars_u64(m);
        append_chars(&mut v, &d);
        string_of(&v)
    } else {
        let d = crate::text::dec_chars_u64(n as u64);
        string_of(&d)
    }
}

/// Whole seconds of a time in milliseconds, rounded toward zero.
pub open spec fn millis_to_secs(ms: int) -> int {
    if ms >= 0 {
        ms / 1000
    } else {
        -((-ms) / 1000)
    }
}

/// The text of a timestamp given the formatted minute of its second (if
/// the date could be represented): that text, else the milliseconds as a number.
pub fn timestamp_text(minute: Option<String>, epoch_millis: i64) -> (r: String)
    ensures
        r@ == (match opt_view(minute) {
            Some(t) => t,
            None => int_text(epoch_millis as int),
        }),
{
    match minute {
        Some(t) => t,
        None => i64_text(epoch_millis),
    }
}

/// A Dependency-Track timestamp (milliseconds since the Unix epoch) as
/// `YYYY-MM-DD HH:MM` in UTC, or the raw number when out of range.
pub fn format_timestamp(epoch_millis: i64) -> (r: String)
    ensures
        r@ == (match utc_minute(millis_to_secs(epoch_millis as int) as i64) {
            Some(t) => t,
            None => int_text(epoch_millis as int),
        }),
{
    let secs: i64 = if epoch_millis >= 0 {
        epoch_millis / 1000
    } else {
        let p: i128 = -(epoch_millis as i128);
        let q: i128 = p / 1000;
        (-q) as i64
    };
    assert(secs == millis_to_secs(epoch_millis as int));
    let minute = utc_minute_text(secs);
    timestamp_text(minute, epoch_millis)
}

} // verus!
