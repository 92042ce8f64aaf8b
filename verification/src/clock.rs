use vstd::prelude::*;

verus! {

/// Relies on chrono::Utc::now and chrono::DateTime::timestamp: the current
/// moment as whole seconds since the Unix epoch. chrono's clock panics on a
/// system time before the epoch and otherwise yields a moment within its
/// representable range (up to about the year 262143), so the seconds are
/// non-negative and well below 9 * 10^12.
#[verifier::external_body]
pub fn now_epoch_seconds() -> (r: i64)
    ensures
        0 <= r < 9_000_000_000_000,
{
    chrono::Utc::now().timestamp()
}

} // verus!
