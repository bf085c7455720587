//! The constants of a node.

use vstd::prelude::*;

verus! {

/// The pause between two attempts to connect to a peer, in milliseconds.
pub const CONNECTION_RETRY_UPON_FAILURE_MILLIS: u64 = 100;

/// How often a connection is tried again before the peer counts as
/// unreachable.
pub const MAX_RETRIES: u64 = 15;

/// The pause between two rounds of mending fingers, in milliseconds.
pub const FIX_FINGERS_SLEEP_MILLIS: u64 = 100;

/// The pause between two rounds of stabilizing, in milliseconds.
pub const STABILIZE_SLEEP_MILLIS: u64 = 1_000;

/// The pause between two checks of the predecessor and of the successor
/// list, in milliseconds.
pub const HEALTH_SLEEP_MILLIS: u64 = 1_000;

/// The difficulty of the proof of work where the configuration names none.
pub const POW_DIFFICULTY: usize = 2;

/// How long a proof of work stays valid, in seconds.
pub const POW_TOKEN_LIVE_TIME: u64 = 5;

/// The number of workers that look for a proof of work side by side.
pub const POW_THREAD_NUM: usize = 32;

/// What is to be done after an attempt to connect failed, `failures`
/// attempts having failed before it: wait for so many milliseconds and try
/// again, or give the peer up.
pub fn retry_connect(failures: u64) -> (delay: Option<u64>)
    ensures
        delay == (if failures < MAX_RETRIES {
            Some(CONNECTION_RETRY_UPON_FAILURE_MILLIS)
        } else {
            None
        }),
{
    if failures < MAX_RETRIES {
        Some(CONNECTION_RETRY_UPON_FAILURE_MILLIS)
    } else {
        None
    }
}

} // verus!
