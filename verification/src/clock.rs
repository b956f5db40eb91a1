//! The clock-synchronization check.
//!
//! Output spendability depends on expiration and timelock conditions
//! evaluated in unix seconds, so a client whose clock has drifted could
//! construct outputs that lock funds irrecoverably. The check below admits
//! the local clock only when it sits within five minutes of the latest
//! milestone timestamp reported by the node.

use vstd::prelude::*;
use crate::FIVE_MINUTES_IN_SECONDS;
use crate::error::ClientError;

verus! {

/// Whether the local clock reading `current` lies strictly within five
/// minutes of the milestone timestamp `milestone`, on either side.
pub open spec fn time_in_sync(current: u32, milestone: u32) -> bool {
    milestone - FIVE_MINUTES_IN_SECONDS < current
        && current < milestone + FIVE_MINUTES_IN_SECONDS
}

/// Validates the local clock reading `current_time` against the latest
/// milestone timestamp, when the node reported one.
///
/// Returns the clock reading unchanged when it is acceptable; otherwise
/// reports both readings so the caller can see the drift.
pub fn get_time_checked(current_time: u32, latest_milestone_timestamp: Option<u32>) -> (r: Result<
    u32,
    ClientError,
>)
    ensures
        match latest_milestone_timestamp {
            Some(milestone) => if time_in_sync(current_time, milestone) {
                r == Ok::<u32, ClientError>(current_time)
            } else {
                r == Err::<u32, ClientError>(
                    ClientError::TimeNotSynced {
                        current_time,
                        milestone_timestamp: milestone,
                    },
                )
            },
            None => r == Ok::<u32, ClientError>(current_time),
        },
{
    match latest_milestone_timestamp {
        Some(milestone) => {
            let lower_ok: bool = (milestone as u64) < current_time as u64
                + FIVE_MINUTES_IN_SECONDS as u64;
            let upper_ok: bool = (current_time as u64) < milestone as u64
                + FIVE_MINUTES_IN_SECONDS as u64;
            if lower_ok && upper_ok {
                Ok(current_time)
            } else {
                Err(ClientError::TimeNotSynced { current_time, milestone_timestamp: milestone })
            }
        },
        None => Ok(current_time),
    }
}

} // verus!
