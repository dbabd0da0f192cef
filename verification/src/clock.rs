//! Reading the system clock, without the panics of `chrono::Utc::now`: a
//! clock before 1970 is reported, not fatal.
use vstd::prelude::*;
use std::time::SystemTime;

verus! {

#[verifier::external_type_specification]
#[verifier::external_body]
pub struct ExSystemTime(SystemTime);

/// `SystemTime::now`: the current system time. Which time it is depends on
/// the clock; nothing is stated.
#[verifier::external_body]
fn system_now() -> SystemTime {
    SystemTime::now()
}

/// `SystemTime::duration_since(UNIX_EPOCH)`, taken as whole seconds and the
/// nanoseconds within the second (`Duration::as_secs`,
/// `Duration::subsec_nanos`, which is below one billion); `None` for a time
/// before the epoch. Which time it is depends on the argument, which is
/// opaque here; nothing more is stated.
#[verifier::external_body]
fn since_unix_epoch(t: &SystemTime) -> (r: Option<(u64, u32)>)
    ensures
        r matches Some((_, n)) ==> n < 1_000_000_000,
{
    match t.duration_since(std::time::UNIX_EPOCH) {
        Ok(d) => Some((d.as_secs(), d.subsec_nanos())),
        Err(_) => None,
    }
}

/// The current time as seconds and nanoseconds since 1970-01-01 UTC, or
/// `None` when the clock is set before that.
pub fn clock_now() -> (r: Option<(u64, u32)>)
    ensures
        r matches Some((_, n)) ==> n < 1_000_000_000,
{
    let t = system_now();
    since_unix_epoch(&t)
}

} // verus!
