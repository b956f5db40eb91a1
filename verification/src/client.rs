//! The client configuration and the per-block retry decisions.
//!
//! A client holds the node-derived settings the block-building paths need.
//! The node calls themselves are the caller's: the functions here decide,
//! from a block's metadata, whether to promote or reattach, and assemble
//! the plain values those operations need.

use vstd::prelude::*;
use crate::block::{Block, BlockMetadata, Input};
use crate::error::ClientError;
use crate::ids::BlockId;
use crate::output::Output;

verus! {

/// The action a retry decides on.
#[derive(Clone, Copy, PartialEq, Eq, Structural, Debug)]
pub enum RetryAction {
    /// Publish a payload-less block referencing the target.
    Promote,
    /// Rebuild the block on fresh parents and publish it again.
    Reattach,
}

/// Whether the node recommends promoting the block.
pub open spec fn recommends_promote(metadata: BlockMetadata) -> bool {
    metadata.should_promote == Some(true)
}

/// Whether the node recommends reattaching the block.
pub open spec fn recommends_reattach(metadata: BlockMetadata) -> bool {
    metadata.should_reattach == Some(true)
}

/// Client-side view of the node's standing configuration.
#[derive(Clone, Copy, PartialEq, Eq, Structural, Debug)]
pub struct Client {
    /// Whether proof of work runs locally; a remote proof of work rewrites
    /// parents and nonce, so the posted block must be fetched back.
    pub local_pow: bool,
    /// The score a block's nonce must meet.
    pub min_pow_score: u32,
    /// Total supply of the base token.
    pub token_supply: u64,
}

/// Staged configuration of a block to build: inputs, outputs, and an
/// optional tagged-data payload.
pub struct ClientBlockBuilder {
    pub inputs: Option<Vec<Input>>,
    pub outputs: Vec<Output>,
    pub tag: Option<Vec<u8>>,
    pub data: Option<Vec<u8>>,
    /// Settings inherited from the client.
    pub client: Client,
}

/// Staged configuration of an address-derivation request: which account
/// and key-index range to derive, and on which chain half.
#[derive(Clone, Copy, PartialEq, Eq, Structural, Debug)]
pub struct GetAddressesBuilder {
    pub account_index: u32,
    pub range_start: u32,
    pub range_end: u32,
    pub internal: bool,
}

impl Client {
    /// A client with the given settings.
    pub fn new(local_pow: bool, min_pow_score: u32, token_supply: u64) -> (r: Client)
        ensures
            r == (Client { local_pow, min_pow_score, token_supply }),
    {
        Client { local_pow, min_pow_score, token_supply }
    }

    /// Begins building a block: nothing is staged yet.
    pub fn block(&self) -> (r: ClientBlockBuilder)
        ensures
            r.inputs is None,
            r.outputs@.len() == 0,
            r.tag is None,
            r.data is None,
            r.client == *self,
    {
        ClientBlockBuilder {
            inputs: None,
            outputs: Vec::new(),
            tag: None,
            data: None,
            client: *self,
        }
    }

    /// Begins an address-derivation request with the default range.
    pub fn get_addresses(&self) -> (r: GetAddressesBuilder)
        ensures
            r == (GetAddressesBuilder {
                account_index: 0u32,
                range_start: 0u32,
                range_end: 20u32,
                internal: false,
            }),
    {
        GetAddressesBuilder { account_index: 0, range_start: 0, range_end: 20, internal: false }
    }

    /// Decides a retry from the block's metadata: promote when the node
    /// recommends it, otherwise reattach when the node recommends that,
    /// otherwise refuse, naming the block.
    pub fn retry_decision(&self, block_id: BlockId, metadata: &BlockMetadata) -> (r: Result<
        RetryAction,
        ClientError,
    >)
        ensures
            r == (if recommends_promote(*metadata) {
                Ok::<RetryAction, ClientError>(RetryAction::Promote)
            } else if recommends_reattach(*metadata) {
                Ok::<RetryAction, ClientError>(RetryAction::Reattach)
            } else {
                Err::<RetryAction, ClientError>(
                    ClientError::NoNeedPromoteOrReattach { block_id },
                )
            }),
    {
        if metadata.should_promote == Some(true) {
            Ok(RetryAction::Promote)
        } else if metadata.should_reattach == Some(true) {
            Ok(RetryAction::Reattach)
        } else {
            Err(ClientError::NoNeedPromoteOrReattach { block_id })
        }
    }

    /// Admits a reattachment only when the node recommends it.
    pub fn reattach_decision(&self, block_id: BlockId, metadata: &BlockMetadata) -> (r: Result<
        (),
        ClientError,
    >)
        ensures
            recommends_reattach(*metadata) ==> r == Ok::<(), ClientError>(()),
            !recommends_reattach(*metadata) ==> r == Err::<(), ClientError>(
                ClientError::NoNeedPromoteOrReattach { block_id },
            ),
    {
        if metadata.should_reattach == Some(true) {
            Ok(())
        } else {
            Err(ClientError::NoNeedPromoteOrReattach { block_id })
        }
    }

    /// Admits a promotion only when the node recommends it.
    pub fn promote_decision(&self, block_id: BlockId, metadata: &BlockMetadata) -> (r: Result<
        (),
        ClientError,
    >)
        ensures
            recommends_promote(*metadata) ==> r == Ok::<(), ClientError>(()),
            !recommends_promote(*metadata) ==> r == Err::<(), ClientError>(
                ClientError::NoNeedPromoteOrReattach { block_id },
            ),
    {
        if metadata.should_promote == Some(true) {
            Ok(())
        } else {
            Err(ClientError::NoNeedPromoteOrReattach { block_id })
        }
    }

    /// The block a publish hands back: the locally built one under local
    /// proof of work, else the one fetched back from the node, which may
    /// have rewritten parents and nonce.
    pub fn published_block(&self, built: Block, fetched: Option<Block>) -> (r: Block)
        requires
            !self.local_pow ==> fetched is Some,
        ensures
            self.local_pow ==> r == built,
            !self.local_pow ==> r == fetched->0,
    {
        if self.local_pow {
            built
        } else {
            match fetched {
                Some(block) => block,
                None => built,
            }
        }
    }
}

impl ClientBlockBuilder {
    /// Stages the inputs to spend.
    pub fn with_inputs(self, inputs: Vec<Input>) -> (r: ClientBlockBuilder)
        ensures
            r.inputs matches Some(v) && v@ == inputs@,
            r.outputs@ == self.outputs@,
            r.tag == self.tag,
            r.data == self.data,
            r.client == self.client,
    {
        ClientBlockBuilder { inputs: Some(inputs), ..self }
    }

    /// Stages the outputs to create.
    pub fn with_outputs(self, outputs: Vec<Output>) -> (r: ClientBlockBuilder)
        ensures
            r.outputs@ == outputs@,
            r.inputs == self.inputs,
            r.tag == self.tag,
            r.data == self.data,
            r.client == self.client,
    {
        ClientBlockBuilder { outputs, ..self }
    }

    /// Stages the tag of a tagged-data payload.
    pub fn with_tag(self, tag: Vec<u8>) -> (r: ClientBlockBuilder)
        ensures
            r.tag matches Some(v) && v@ == tag@,
            r.inputs == self.inputs,
            r.outputs@ == self.outputs@,
            r.data == self.data,
            r.client == self.client,
    {
        ClientBlockBuilder { tag: Some(tag), ..self }
    }

    /// Stages the data of a tagged-data payload.
    pub fn with_data(self, data: Vec<u8>) -> (r: ClientBlockBuilder)
        ensures
            r.data matches Some(v) && v@ == data@,
            r.inputs == self.inputs,
            r.outputs@ == self.outputs@,
            r.tag == self.tag,
            r.client == self.client,
    {
        ClientBlockBuilder { data: Some(data), ..self }
    }
}

impl GetAddressesBuilder {
    /// Selects the account whose addresses are derived.
    pub fn with_account_index(self, account_index: u32) -> (r: GetAddressesBuilder)
        ensures
            r == (GetAddressesBuilder { account_index, ..self }),
    {
        GetAddressesBuilder { account_index, ..self }
    }

    /// Selects the key-index range to derive.
    pub fn with_range(self, start: u32, end: u32) -> (r: GetAddressesBuilder)
        ensures
            r == (GetAddressesBuilder { range_start: start, range_end: end, ..self }),
    {
        GetAddressesBuilder { range_start: start, range_end: end, ..self }
    }

    /// Selects the internal (change) half of the chain.
    pub fn with_internal(self, internal: bool) -> (r: GetAddressesBuilder)
        ensures
            r == (GetAddressesBuilder { internal, ..self }),
    {
        GetAddressesBuilder { internal, ..self }
    }
}

} // verus!
