//! Ledger outputs and their unlock conditions.

use vstd::prelude::*;
use crate::ids::Address;

verus! {

/// The kind of a ledger output.
#[derive(Clone, Copy, PartialEq, Eq, Structural, Debug)]
pub enum OutputKind {
    Basic,
    Account,
    Foundry,
    Nft,
    Treasury,
}

/// An expiration condition: past `unix_time`, only `return_address` may
/// spend the output.
#[derive(Clone, Copy, PartialEq, Eq, Structural, Debug)]
pub struct ExpirationCondition {
    pub unix_time: u32,
    pub return_address: Address,
}

/// A timelock condition: the output may not be spent before `unix_time`.
#[derive(Clone, Copy, PartialEq, Eq, Structural, Debug)]
pub struct TimelockCondition {
    pub unix_time: u32,
}

/// A storage-deposit-return condition: spending the output obliges the
/// spender to return `amount` to `return_address`.
#[derive(Clone, Copy, PartialEq, Eq, Structural, Debug)]
pub struct StorageDepositReturnCondition {
    pub amount: u64,
    pub return_address: Address,
}

/// A ledger output: an amount locked to an address, optionally guarded by
/// unlock conditions whose meaning depends on the current unix time.
#[derive(Clone, Copy, PartialEq, Eq, Structural, Debug)]
pub struct Output {
    pub kind: OutputKind,
    pub amount: u64,
    pub address: Address,
    pub expiration: Option<ExpirationCondition>,
    pub timelock: Option<TimelockCondition>,
    pub storage_deposit_return: Option<StorageDepositReturnCondition>,
}

/// The address that controls `output` at `current_time`: the expiration
/// return address once the expiration has passed, the output's own address
/// otherwise.
pub open spec fn controlling_address(output: Output, current_time: u32) -> Address {
    match output.expiration {
        Some(expiration) => if expiration.unix_time <= current_time {
            expiration.return_address
        } else {
            output.address
        },
        None => output.address,
    }
}

/// The amount and the controlling address of an output, evaluated at
/// `current_time`. Pure: two calls with equal arguments agree, and the
/// expiration condition is judged strictly against `current_time`.
pub fn get_output_amount_and_address(output: &Output, current_time: u32) -> (r: (u64, Address))
    ensures
        r.0 == output.amount,
        r.1 == controlling_address(*output, current_time),
{
    let address = match output.expiration {
        Some(expiration) => if expiration.unix_time <= current_time {
            expiration.return_address
        } else {
            output.address
        },
        None => output.address,
    };
    (output.amount, address)
}

} // verus!
