use vstd::prelude::*;
use std::time::Duration;

verus! {

/// What `Duration::from_secs` returns for a number of seconds.
pub uninterp spec fn secs_duration(secs: u64) -> Duration;

/// The length of a duration in nanoseconds, as `Duration::as_nanos` returns it.
pub uninterp spec fn nanos_of(d: Duration) -> nat;

/// Calls `Duration::from_secs`: the result is named by `secs_duration`, and
/// `as_nanos` of it is `secs * 10^9`, as std documents.
#[verifier::external_body]
pub(crate) fn duration_from_secs(secs: u64) -> (d: Duration)
    ensures
        d == secs_duration(secs),
        nanos_of(d) == secs as nat * 1_000_000_000,
{
    Duration::from_secs(secs)
}

/// Calls `Duration::as_nanos`: the number of whole nanoseconds in the duration.
#[verifier::external_body]
pub(crate) fn duration_nanos(d: &Duration) -> (n: u128)
    ensures
        n as nat == nanos_of(*d),
{
    d.as_nanos()
}

} // verus!
