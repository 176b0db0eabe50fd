//! The time.

use vstd::prelude::*;

verus! {

/// `SystemTime::elapsed` of the Unix epoch: whole seconds and the nanoseconds
/// of the second since then, or `None` where the clock stands before the
/// epoch. The nanoseconds are less than one second. Which time it is, and how
/// the times of two calls relate, is left unsaid, for it rests on the clock of
/// the machine.
#[verifier::external_body]
fn epoch_elapsed() -> (r: Option<(u64, u32)>)
    ensures
        r matches Some(t) ==> t.1 < 1_000_000_000,
{
    match std::time::UNIX_EPOCH.elapsed() {
        Ok(elapsed) => Some((elapsed.as_secs(), elapsed.subsec_nanos())),
        Err(_) => None,
    }
}

/// Whole milliseconds of a time since the epoch. A time before it counts as
/// the epoch.
pub fn to_millis(elapsed: Option<(u64, u32)>) -> (r: u128)
    ensures
        r == match elapsed {
            Some(t) => t.0 * 1000 + t.1 / 1_000_000,
            None => 0,
        },
{
    match elapsed {
        Some((secs, nanos)) => secs as u128 * 1000 + (nanos / 1_000_000) as u128,
        None => 0,
    }
}

/// Milliseconds since the Unix epoch.
pub fn now_ms() -> (r: u128)
    ensures
        r <= u64::MAX * 1000 + 999,
{
    to_millis(epoch_elapsed())
}

} // verus!
