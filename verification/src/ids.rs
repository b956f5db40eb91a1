//! Identifiers used throughout the ledger model.
//!
//! Each identifier is opaque to the logic built on top of it: only equality
//! (and, for token identifiers, ordering) is ever consulted. They are
//! therefore modeled as integer-valued handles, which keeps equality and
//! ordering structural.

use vstd::prelude::*;

verus! {

/// Identifier of a block: the content hash under which the node stores it.
#[derive(Clone, Copy, PartialEq, Eq, Structural, Debug, Hash)]
pub struct BlockId {
    pub id: u64,
}

/// Identifier of a transaction essence.
#[derive(Clone, Copy, PartialEq, Eq, Structural, Debug, Hash)]
pub struct TransactionId {
    pub id: u64,
}

/// Name of a ledger output: the transaction that created it plus the index
/// of the output within that transaction.
#[derive(Clone, Copy, PartialEq, Eq, Structural, Debug, Hash)]
pub struct OutputId {
    pub transaction_id: TransactionId,
    pub index: u16,
}

/// Identifier of an account output.
#[derive(Clone, Copy, PartialEq, Eq, Structural, Debug, Hash)]
pub struct AccountId {
    pub id: u64,
}

/// Identifier of an NFT output.
#[derive(Clone, Copy, PartialEq, Eq, Structural, Debug, Hash)]
pub struct NftId {
    pub id: u64,
}

/// Identifier of a foundry output.
#[derive(Clone, Copy, PartialEq, Eq, Structural, Debug, Hash)]
pub struct FoundryId {
    pub id: u64,
}

/// Identifier of a class of native tokens. Token identifiers are ordered,
/// which fixes the iteration order of a burn directive's token mapping.
#[derive(Clone, Copy, PartialEq, Eq, Structural, Debug, Hash)]
pub struct TokenId {
    pub id: u64,
}

/// A 256-bit unsigned quantity of native tokens, held as two 128-bit halves.
#[derive(Clone, Copy, PartialEq, Eq, Structural, Debug, Hash)]
pub struct TokenAmount {
    pub hi: u128,
    pub lo: u128,
}

impl TokenAmount {
    /// The mathematical value of the quantity.
    pub open spec fn value(self) -> int {
        self.hi * 0x1_0000_0000_0000_0000_0000_0000_0000_0000 + self.lo
    }

    /// Builds a quantity from its two halves.
    pub fn new(hi: u128, lo: u128) -> (r: TokenAmount)
        ensures
            r.hi == hi,
            r.lo == lo,
    {
        TokenAmount { hi, lo }
    }

    /// Builds a quantity that fits in 64 bits.
    pub fn from_u64(v: u64) -> (r: TokenAmount)
        ensures
            r.hi == 0,
            r.lo == v,
            r.value() == v,
    {
        TokenAmount { hi: 0, lo: v as u128 }
    }
}

/// An address on the ledger, in one of its three kinds.
#[derive(Clone, Copy, PartialEq, Eq, Structural, Debug, Hash)]
pub enum Address {
    /// An address controlled by an Ed25519 key, named by the key's hash.
    Ed25519 { key_hash: u64 },
    /// The address of an account output.
    Account { account_id: AccountId },
    /// The address of an NFT output.
    Nft { nft_id: NftId },
}

/// A quantity of a class of native tokens.
#[derive(Clone, Copy, PartialEq, Eq, Structural, Debug, Hash)]
pub struct NativeToken {
    pub token_id: TokenId,
    pub amount: TokenAmount,
}

impl NativeToken {
    /// Pairs a token class with an amount.
    pub fn new(token_id: TokenId, amount: TokenAmount) -> (r: NativeToken)
        ensures
            r.token_id == token_id,
            r.amount == amount,
    {
        NativeToken { token_id, amount }
    }

    /// The class of token.
    pub fn token_id(&self) -> (r: TokenId)
        ensures
            r == self.token_id,
    {
        self.token_id
    }

    /// The amount of the token.
    pub fn amount(&self) -> (r: TokenAmount)
        ensures
            r == self.amount,
    {
        self.amount
    }
}

} // verus!
