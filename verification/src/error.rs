//! Errors surfaced by the client logic.

use vstd::prelude::*;
use crate::ids::BlockId;

verus! {

/// The failures a caller of this library can observe.
#[derive(Clone, Copy, PartialEq, Eq, Structural, Debug)]
pub enum ClientError {
    /// Input selection could not cover the requested amount: `found` is the
    /// best total reachable within the input-count limit, `required` the
    /// target.
    NotEnoughBalance { found: u64, required: u64 },
    /// A promotion or reattachment was requested for a block the node does
    /// not recommend either action for.
    NoNeedPromoteOrReattach { block_id: BlockId },
    /// Retrying a block until inclusion exhausted its allowed rounds.
    TangleInclusionError { block_id: BlockId },
    /// The local clock and the latest milestone timestamp disagree by too
    /// much to evaluate time-dependent unlock conditions safely.
    TimeNotSynced { current_time: u32, milestone_timestamp: u32 },
    /// A synchronized address was missing from the account's address book:
    /// an invariant violation in the stored account.
    InputAddressNotFound,
    /// A block that was expected to carry a transaction payload with plain
    /// UTXO inputs carried something else.
    UnexpectedPayload,
}

impl ClientError {
    /// A short description of the error, for callers that need text.
    pub fn describe(&self) -> (r: &'static str) {
        match self {
            ClientError::NotEnoughBalance { .. } => "not enough balance to reach the requested amount",
            ClientError::NoNeedPromoteOrReattach { .. } => "no need to promote or reattach this block",
            ClientError::TangleInclusionError { .. } => "block was not included before the attempt limit",
            ClientError::TimeNotSynced { .. } => "local time is not in sync with the latest milestone",
            ClientError::InputAddressNotFound => "a synced address was not found in the account",
            ClientError::UnexpectedPayload => "block did not carry the expected transaction payload",
        }
    }
}

} // verus!
