//! The wall clock.
use vstd::prelude::*;

verus! {

/// A moment of the system's clock.
#[verifier::external_type_specification]
#[verifier::external_body]
pub struct ExSystemTime(std::time::SystemTime);

/// The error of a moment that lies before another one.
#[verifier::external_type_specification]
#[verifier::external_body]
pub struct ExSystemTimeError(std::time::SystemTimeError);

/// `SystemTime::now`: the present moment, of which nothing is known.
pub assume_specification[ std::time::SystemTime::now ]() -> std::time::SystemTime
;

/// `SystemTime::duration_since` the start of 1970: the time from there to
/// `now`, as whole seconds and the nanoseconds beyond them, which are less than
/// a second; or an error where `now` lies before. Which of the two, and how
/// much time, is not stated: it depends on a moment of which nothing is known.
#[verifier::external_body]
fn since_epoch(now: std::time::SystemTime) -> (r: Result<(u64, u32), std::time::SystemTimeError>)
    ensures
        r matches Ok(elapsed) ==> elapsed.1 < 1_000_000_000,
{
    now.duration_since(std::time::UNIX_EPOCH).map(|d| (d.as_secs(), d.subsec_nanos()))
}

/// The whole milliseconds in this many seconds and nanoseconds.
pub open spec fn whole_millis(secs: u64, nanos: u32) -> int {
    secs * 1000 + nanos / 1_000_000
}

/// The whole milliseconds of the time since the start of 1970, given as seconds
/// and nanoseconds; none where the moment lies before.
pub fn elapsed_ms(since: Result<(u64, u32), std::time::SystemTimeError>) -> (r: Option<u128>)
    ensures
        r is Some <==> since is Ok,
        since matches Ok(elapsed) ==> r->0 == whole_millis(elapsed.0, elapsed.1),
{
    match since {
        Ok(elapsed) => Some(elapsed.0 as u128 * 1000 + (elapsed.1 / 1_000_000) as u128),
        Err(_) => None,
    }
}

/// Milliseconds since the start of 1970; none where the clock stands before.
/// That the number is the present one is not stated: it rests on the clock.
pub fn now_ms() -> (r: Option<u128>)
    ensures
        r matches Some(t) ==> t <= u64::MAX * 1000 + 999,
{
    elapsed_ms(since_epoch(std::time::SystemTime::now()))
}

/// Whole milliseconds are the most that fit into the time that has passed.
pub proof fn law_whole_millis(secs: u64, nanos: u32)
    requires
        nanos < 1_000_000_000,
    ensures
        whole_millis(secs, nanos) * 1_000_000 <= secs * 1_000_000_000 + nanos,
        secs * 1_000_000_000 + nanos < (whole_millis(secs, nanos) + 1) * 1_000_000,
{
}

} // verus!
