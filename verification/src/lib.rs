//! Client-side logic for a UTXO ledger whose transactions travel in blocks
//! attached to a DAG and are finalized by milestone references.
//!
//! The crate models the decision-making core of such a client: selecting
//! inputs to fund a transaction, checking the local clock against the latest
//! milestone, driving a block to inclusion by promoting or reattaching it,
//! and committing a synchronization pass into an account's state. All
//! network traffic is left to the caller, who feeds the observed responses
//! into these functions as plain values.

pub mod account;
pub mod block;
pub mod burn;
pub mod client;
pub mod clock;
pub mod error;
pub mod feature;
pub mod ids;
pub mod input_selection;
pub mod output;
pub mod tracker;

use vstd::prelude::*;

verus! {

/// Upper bound on the number of inputs a transaction may carry.
pub const INPUT_COUNT_MAX: usize = 128;

/// Default seconds between rounds when retrying a block until inclusion.
pub const DEFAULT_RETRY_UNTIL_INCLUDED_INTERVAL: u64 = 5;

/// Default number of rounds when retrying a block until inclusion.
pub const DEFAULT_RETRY_UNTIL_INCLUDED_MAX_AMOUNT: u64 = 40;

/// Allowed distance, in seconds, between the local clock and the latest
/// milestone timestamp.
pub const FIVE_MINUTES_IN_SECONDS: u32 = 300;

/// Minimum number of milliseconds between two effective synchronization
/// passes over the same account.
pub const MIN_SYNC_INTERVAL: u128 = 5000;

} // verus!
