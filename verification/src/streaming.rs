//! How often something is sent while a turn runs.

use vstd::prelude::*;

verus! {

/// The time between two signs of life on a stream, in milliseconds.
pub const KEEPALIVE_MILLIS: u64 = 30_000;

/// The time between two signs of life on a stream under test, in milliseconds.
pub const TEST_KEEPALIVE_MILLIS: u64 = 50;

/// The time between two renewals of the hold against sleep, in milliseconds.
pub const POWER_HEARTBEAT_MILLIS: u64 = 30_000;

/// The time between two signs of life on a stream, in milliseconds.
pub fn stream_keepalive_interval(testing: bool) -> (r: u64)
    ensures
        r == if testing {
            TEST_KEEPALIVE_MILLIS
        } else {
            KEEPALIVE_MILLIS
        },
{
    if testing {
        TEST_KEEPALIVE_MILLIS
    } else {
        KEEPALIVE_MILLIS
    }
}

} // verus!
