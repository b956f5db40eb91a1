//! Blocks, payloads, and block metadata.

use vstd::prelude::*;
use crate::error::ClientError;
use crate::ids::{BlockId, OutputId, TransactionId};
use crate::output::Output;

verus! {

broadcast use vstd::seq_lib::lemma_seq_contains_after_push, Seq::lemma_take_succ_push;

/// An input consumed by a transaction: a UTXO named by its output id, or a
/// treasury input. Treasury inputs never occur in user-built transactions.
#[derive(Clone, Copy, PartialEq, Eq, Structural, Debug)]
pub enum Input {
    Utxo { output_id: OutputId },
    Treasury,
}

/// A transaction payload: the essence identifier together with the inputs
/// and outputs of its regular essence.
#[derive(Clone, PartialEq, Eq, Debug)]
pub struct TransactionPayload {
    /// Hash of the transaction essence.
    pub transaction_id: TransactionId,
    pub inputs: Vec<Input>,
    pub outputs: Vec<Output>,
}

/// The payload carried by a block.
#[derive(Clone, PartialEq, Eq, Debug)]
pub enum Payload {
    Transaction(TransactionPayload),
    TaggedData { tag: Vec<u8>, data: Vec<u8> },
    Milestone { index: u32, timestamp: u32 },
    Treasury,
}

/// A block of the DAG: parent references, an optional payload, and the
/// nonce that meets the proof-of-work score. A block without a payload is
/// valid and serves as a promotion.
#[derive(Clone, PartialEq, Eq, Debug)]
pub struct Block {
    pub parents: Vec<BlockId>,
    pub payload: Option<Payload>,
    pub nonce: u64,
}

/// The inclusion state the node reports for a block.
#[derive(Clone, Copy, PartialEq, Eq, Structural, Debug)]
pub enum LedgerInclusionState {
    Included,
    NoTransaction,
    Conflicting,
}

/// Node-reported metadata of a block. An absent field means the node made
/// no statement; `Some(true)` means it recommends the action.
#[derive(Clone, Copy, PartialEq, Eq, Structural, Debug)]
pub struct BlockMetadata {
    pub ledger_inclusion_state: Option<LedgerInclusionState>,
    pub should_promote: Option<bool>,
    pub should_reattach: Option<bool>,
}

/// Whether every input of the sequence is a UTXO input.
pub open spec fn all_utxo(inputs: Seq<Input>) -> bool {
    forall|i: int| 0 <= i < inputs.len() ==> inputs[i] is Utxo
}

/// The output ids named by a sequence of UTXO inputs.
pub open spec fn utxo_output_ids(inputs: Seq<Input>) -> Seq<OutputId> {
    inputs.map_values(|input: Input| input->output_id)
}

/// Extracts the output ids consumed by the transaction a block carries.
///
/// Succeeds exactly when the block carries a transaction payload all of
/// whose inputs are UTXO inputs, and then returns their output ids in
/// order. A missing or foreign payload, or a treasury input, is reported
/// as an unexpected payload rather than treated as unreachable.
pub fn transaction_input_ids(block: &Block) -> (r: Result<Vec<OutputId>, ClientError>)
    ensures
        match r {
            Ok(ids) => {
                &&& block.payload matches Some(Payload::Transaction(t))
                &&& all_utxo(t.inputs@)
                &&& ids@ == utxo_output_ids(t.inputs@)
            },
            Err(e) => {
                &&& e == ClientError::UnexpectedPayload
                &&& match block.payload {
                    Some(Payload::Transaction(t)) => !all_utxo(t.inputs@),
                    _ => true,
                }
            },
        },
{
    match &block.payload {
        Some(Payload::Transaction(t)) => {
            let mut ids: Vec<OutputId> = Vec::new();
            let mut i: usize = 0;
            while i < t.inputs.len()
                invariant
                    0 <= i <= t.inputs@.len(),
                    block.payload matches Some(Payload::Transaction(t2)) && t2 == *t,
                    forall|k: int| 0 <= k < i ==> t.inputs@[k] is Utxo,
                    ids@ == utxo_output_ids(t.inputs@.take(i as int)),
                decreases t.inputs@.len() - i,
            {
                match t.inputs[i] {
                    Input::Utxo { output_id } => {
                        ids.push(output_id);
                        proof {
                            assert(t.inputs@.take(i + 1 as int).map_values(
                                |input: Input| input->output_id,
                            ) =~= t.inputs@.take(i as int).map_values(
                                |input: Input| input->output_id,
                            ).push(output_id));
                        }
                    },
                    Input::Treasury => {
                        return Err(ClientError::UnexpectedPayload);
                    },
                }
                i = i + 1;
            }
            proof {
                assert(t.inputs@.take(i as int) =~= t.inputs@);
            }
            Ok(ids)
        },
        _ => Err(ClientError::UnexpectedPayload),
    }
}

/// Whether a sequence holds no element twice.
pub open spec fn no_duplicates(ids: Seq<BlockId>) -> bool {
    forall|i: int, j: int| 0 <= i < j < ids.len() ==> ids[i] != ids[j]
}

/// Whether a block id occurs in `ids`.
fn contains_block_id(ids: &Vec<BlockId>, id: BlockId) -> (r: bool)
    ensures
        r == ids@.contains(id),
{
    let mut i: usize = 0;
    while i < ids.len()
        invariant
            0 <= i <= ids@.len(),
            forall|k: int| 0 <= k < i ==> ids@[k] != id,
        decreases ids@.len() - i,
    {
        if ids[i] == id {
            return true;
        }
        i = i + 1;
    }
    false
}

/// Removes duplicate block ids, keeping the first occurrence of each and
/// the order of first occurrences.
pub fn dedup_block_ids(ids: &Vec<BlockId>) -> (r: Vec<BlockId>)
    ensures
        no_duplicates(r@),
        forall|id: BlockId| r@.contains(id) <==> ids@.contains(id),
{
    let mut out: Vec<BlockId> = Vec::new();
    let mut i: usize = 0;
    while i < ids.len()
        invariant
            0 <= i <= ids@.len(),
            no_duplicates(out@),
            forall|id: BlockId| out@.contains(id) <==> ids@.take(i as int).contains(id),
        decreases ids@.len() - i,
    {
        let id = ids[i];
        if !contains_block_id(&out, id) {
            out.push(id);
        }
        proof {
            assert(ids@.take(i + 1) == ids@.take(i as int).push(ids@[i as int]));
        }
        i = i + 1;
    }
    proof {
        assert(ids@.take(i as int) =~= ids@);
    }
    out
}

/// The parent list of a promotion block for `target`: the fresh tips with
/// the target appended, so the new block references it from the frontier.
pub fn promote_parents(tips: Vec<BlockId>, target: BlockId) -> (r: Vec<BlockId>)
    ensures
        r@ == tips@.push(target),
{
    let mut parents = tips;
    parents.push(target);
    parents
}

} // verus!
