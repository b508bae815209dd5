//! How a stored time is persisted: as the seconds elapsed since it, so that a
//! restored entry keeps aging from where it was, whatever the clock reads.
use vstd::prelude::*;

use crate::cache::age;

verus! {

/// The seconds elapsed from `timestamp` to `now` (none when `timestamp` is
/// later than `now`).
pub fn serialize(timestamp: u64, now: u64) -> (r: u64)
    ensures
        r == age(timestamp, now),
{
    if now >= timestamp {
        now - timestamp
    } else {
        0
    }
}

/// The time that lies `secs` seconds before `now`; nothing when that is
/// before the clock's origin.
pub fn deserialize(secs: u64, now: u64) -> (r: Option<u64>)
    ensures
        r == (if secs <= now {
            Some((now - secs) as u64)
        } else {
            None::<u64>
        }),
{
    if secs <= now {
        Some(now - secs)
    } else {
        None
    }
}

} // verus!
