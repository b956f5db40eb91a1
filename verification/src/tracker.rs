//! Driving a block to inclusion: the retry/promote/reattach engine.
//!
//! The engine is a state machine. Each step consumes one observation from
//! the node (a metadata response, a fetched block, the result of a
//! promotion or reattachment) and yields the next request to make, the
//! final list of blocks, or a failure. The caller performs the sleeps and
//! the network requests and feeds the responses back in; every decision
//! in between is made, and verified, here.
//!
//! Within a round the attachments are scanned in insertion order. A
//! conflicting attachment never ends the scan, because a reattachment
//! may still confirm; only the latest attachment is ever promoted or
//! reattached, which bounds the work per round. When a round ends with a
//! conflict observed, the original block's transaction is looked up under
//! its own identifier, since the network may have included it under an
//! attachment this engine never made.

use vstd::prelude::*;
use crate::block::{Block, BlockMetadata, LedgerInclusionState, Payload};
use crate::error::ClientError;
use crate::ids::{BlockId, TransactionId};

verus! {

/// A request the engine asks its caller to perform against the node.
#[derive(Clone, Copy, PartialEq, Eq, Structural, Debug)]
pub enum TrackerAction {
    /// Wait this many seconds before the next scan.
    Sleep { seconds: u64 },
    /// Fetch the metadata of this block.
    GetMetadata { block_id: BlockId },
    /// Fetch this block.
    GetBlock { block_id: BlockId },
    /// Promote this block: attach a payload-less block referencing it.
    Promote { block_id: BlockId },
    /// Reattach this block: rebuild it on fresh parents and post it.
    Reattach { block_id: BlockId },
    /// Fetch the block the ledger included for this transaction.
    GetIncludedBlock { transaction_id: TransactionId },
}

/// The outcome of one step of the engine.
#[derive(Debug)]
pub enum TrackerStep {
    /// Perform this request and feed its response back in.
    Continue { action: TrackerAction },
    /// The block is included; these are the blocks to hand to the caller.
    Done { blocks: Vec<(BlockId, Block)> },
    /// The engine gives up.
    Failed { error: ClientError },
}

/// Where the engine stands between two steps.
#[derive(Clone, Copy, PartialEq, Eq, Structural, Debug)]
pub enum TrackerPhase {
    /// Created, not yet started.
    Created,
    /// Waiting for the round's sleep to elapse.
    Sleeping,
    /// Waiting for the metadata of the attachment under scan.
    Scanning,
    /// The original block confirmed; waiting for its contents.
    FetchingOriginal,
    /// Waiting for a promotion of the latest attachment to be posted.
    Promoting,
    /// Waiting for a reattachment of the latest attachment to be posted.
    Reattaching,
    /// A conflict was seen this round; waiting for the original block to
    /// look its transaction up.
    CheckingConflict,
    /// Waiting for the ledger's included block for the transaction.
    FetchingIncluded,
    /// The engine has returned a result or failed.
    Finished,
}

/// The retry-until-included engine.
pub struct InclusionTracker {
    /// The block whose inclusion is sought.
    pub original: BlockId,
    /// Every attachment under watch: the original first, then each
    /// reattachment in the order it was made.
    pub attachments: Vec<BlockId>,
    /// The reattachments made so far, mirroring `attachments` past the
    /// first entry.
    pub reattached: Vec<(BlockId, Block)>,
    /// Whether an attachment was seen conflicting in the current round.
    pub conflicting: bool,
    /// Position of the attachment whose metadata is awaited.
    pub index: usize,
    /// Rounds that may still be started.
    pub rounds_left: u64,
    /// Seconds to sleep before each round.
    pub interval: u64,
    /// Where the engine stands.
    pub phase: TrackerPhase,
}

impl InclusionTracker {
    /// The structural invariant: the reattachment history mirrors the
    /// attachment list past the original, and a scan stays in bounds.
    pub open spec fn wf(self) -> bool {
        &&& !(self.phase is Finished) ==> {
            &&& self.attachments@.len() == self.reattached@.len() + 1
            &&& self.attachments@[0] == self.original
            &&& forall|k: int|
                0 <= k < self.reattached@.len() ==> self.reattached@[k].0
                    == self.attachments@[k + 1]
        }
        &&& (self.phase is Scanning ==> self.index < self.attachments@.len())
    }

    /// The two bookkeeping lists and the standing configuration are the
    /// same in `pre` and `post`.
    pub open spec fn same_lists(pre: InclusionTracker, post: InclusionTracker) -> bool {
        &&& post.original == pre.original
        &&& post.attachments@ == pre.attachments@
        &&& post.reattached@ == pre.reattached@
        &&& post.rounds_left == pre.rounds_left
        &&& post.interval == pre.interval
    }

    /// What beginning a round means: fail once the allowance is spent,
    /// otherwise spend one round and sleep.
    pub open spec fn starts_round(pre: InclusionTracker, post: InclusionTracker, r: TrackerStep) -> bool {
        if pre.rounds_left == 0 {
            &&& r matches TrackerStep::Failed { error }
                && error == (ClientError::TangleInclusionError { block_id: pre.original })
            &&& post == (InclusionTracker { phase: TrackerPhase::Finished, ..pre })
        } else {
            &&& r matches TrackerStep::Continue { action }
                && action == (TrackerAction::Sleep { seconds: pre.interval })
            &&& post == (InclusionTracker {
                phase: TrackerPhase::Sleeping,
                rounds_left: (pre.rounds_left - 1) as u64,
                ..pre
            })
        }
    }

    /// What ending a round means: chase the conflict through the original
    /// block when one was seen, otherwise begin the next round.
    pub open spec fn ends_round(pre: InclusionTracker, post: InclusionTracker, r: TrackerStep) -> bool {
        if pre.conflicting {
            &&& r matches TrackerStep::Continue { action }
                && action == (TrackerAction::GetBlock { block_id: pre.original })
            &&& post == (InclusionTracker { phase: TrackerPhase::CheckingConflict, ..pre })
        } else {
            Self::starts_round(pre, post, r)
        }
    }

    /// A fresh engine for `block_id`, with the given round interval and
    /// round allowance, or the defaults where none is given.
    pub fn new(block_id: BlockId, interval: Option<u64>, max_attempts: Option<u64>) -> (r:
        InclusionTracker)
        ensures
            r.wf(),
            r.original == block_id,
            r.attachments@ == seq![block_id],
            r.reattached@.len() == 0,
            r.phase is Created,
            r.interval == (match interval {
                Some(i) => i,
                None => crate::DEFAULT_RETRY_UNTIL_INCLUDED_INTERVAL,
            }),
            r.rounds_left == (match max_attempts {
                Some(m) => m,
                None => crate::DEFAULT_RETRY_UNTIL_INCLUDED_MAX_AMOUNT,
            }),
    {
        let interval_secs: u64 = match interval {
            Some(i) => i,
            None => crate::DEFAULT_RETRY_UNTIL_INCLUDED_INTERVAL,
        };
        let rounds: u64 = match max_attempts {
            Some(m) => m,
            None => crate::DEFAULT_RETRY_UNTIL_INCLUDED_MAX_AMOUNT,
        };
        let mut attachments: Vec<BlockId> = Vec::new();
        attachments.push(block_id);
        proof {
            assert(attachments@ =~= seq![block_id]);
        }
        InclusionTracker {
            original: block_id,
            attachments,
            reattached: Vec::new(),
            conflicting: false,
            index: 0,
            rounds_left: rounds,
            interval: interval_secs,
            phase: TrackerPhase::Created,
        }
    }

    /// Starts the engine: the first round begins, or the engine fails at
    /// once when no rounds are allowed.
    pub fn start(&mut self) -> (r: TrackerStep)
        requires
            old(self).wf(),
            old(self).phase is Created,
        ensures
            final(self).wf(),
            Self::starts_round(*old(self), *final(self), r),
    {
        self.begin_round()
    }

    /// Spends a round or fails; shared by every path that reaches the end
    /// of a round without a conflict to chase.
    fn begin_round(&mut self) -> (r: TrackerStep)
        requires
            old(self).wf(),
            !(old(self).phase is Finished),
        ensures
            final(self).wf(),
            Self::starts_round(*old(self), *final(self), r),
    {
        if self.rounds_left == 0 {
            self.phase = TrackerPhase::Finished;
            TrackerStep::Failed {
                error: ClientError::TangleInclusionError { block_id: self.original },
            }
        } else {
            self.rounds_left = self.rounds_left - 1;
            self.phase = TrackerPhase::Sleeping;
            TrackerStep::Continue { action: TrackerAction::Sleep { seconds: self.interval } }
        }
    }

    /// Chases the round's conflict or begins the next round.
    fn end_round(&mut self) -> (r: TrackerStep)
        requires
            old(self).wf(),
            !(old(self).phase is Finished),
        ensures
            final(self).wf(),
            Self::ends_round(*old(self), *final(self), r),
    {
        if self.conflicting {
            self.phase = TrackerPhase::CheckingConflict;
            TrackerStep::Continue { action: TrackerAction::GetBlock { block_id: self.original } }
        } else {
            self.begin_round()
        }
    }

    /// The sleep has elapsed: scan the attachments from the front.
    pub fn on_slept(&mut self) -> (r: TrackerStep)
        requires
            old(self).wf(),
            old(self).phase is Sleeping,
        ensures
            final(self).wf(),
            final(self).phase is Scanning,
            final(self).index == 0,
            final(self).conflicting == false,
            Self::same_lists(*old(self), *final(self)),
            r matches TrackerStep::Continue { action }
                && action == (TrackerAction::GetMetadata { block_id: old(self).attachments@[0] }),
    {
        self.index = 0;
        self.conflicting = false;
        self.phase = TrackerPhase::Scanning;
        let first = self.attachments[0];
        TrackerStep::Continue { action: TrackerAction::GetMetadata { block_id: first } }
    }

    /// Metadata of the attachment under scan arrived.
    ///
    /// An attachment seen `Included` or `NoTransaction` ends the engine:
    /// through a fetch of the original block when it is the original
    /// itself, directly with the reattachment history rotated left by the
    /// scan position otherwise. A `Conflicting` attachment only marks the
    /// round and the scan goes on. On the latest attachment, and only
    /// there, a recommended promotion or reattachment is requested.
    pub fn on_metadata(&mut self, metadata: BlockMetadata) -> (r: TrackerStep)
        requires
            old(self).wf(),
            old(self).phase is Scanning,
        ensures
            final(self).wf(),
            ({
                let pre = *old(self);
                let post = *final(self);
                let scanned = pre.attachments@[pre.index as int];
                let included = matches!(
                    metadata.ledger_inclusion_state,
                    Some(LedgerInclusionState::Included) | Some(LedgerInclusionState::NoTransaction)
                );
                let saw_conflict = metadata.ledger_inclusion_state == Some(
                    LedgerInclusionState::Conflicting,
                );
                let marked = (InclusionTracker {
                    conflicting: pre.conflicting || saw_conflict,
                    ..pre
                });
                let last = pre.index + 1 == pre.attachments@.len();
                if included && scanned == pre.original {
                    &&& r matches TrackerStep::Continue { action }
                        && action == (TrackerAction::GetBlock { block_id: pre.original })
                    &&& post.phase is FetchingOriginal
                    &&& Self::same_lists(pre, post)
                } else if included {
                    &&& r matches TrackerStep::Done { blocks }
                        && blocks@ == pre.reattached@.skip(pre.index as int)
                            + pre.reattached@.take(pre.index as int)
                    &&& post.phase is Finished
                } else if !last {
                    &&& r matches TrackerStep::Continue { action }
                        && action == (TrackerAction::GetMetadata {
                            block_id: pre.attachments@[pre.index + 1],
                        })
                    &&& post.phase is Scanning
                    &&& post.index == pre.index + 1
                    &&& post.conflicting == marked.conflicting
                    &&& Self::same_lists(pre, post)
                } else if metadata.should_promote == Some(true) {
                    &&& r matches TrackerStep::Continue { action }
                        && action == (TrackerAction::Promote { block_id: scanned })
                    &&& post.phase is Promoting
                    &&& post.conflicting == marked.conflicting
                    &&& Self::same_lists(pre, post)
                } else if metadata.should_reattach == Some(true) {
                    &&& r matches TrackerStep::Continue { action }
                        && action == (TrackerAction::Reattach { block_id: scanned })
                    &&& post.phase is Reattaching
                    &&& post.conflicting == marked.conflicting
                    &&& Self::same_lists(pre, post)
                } else {
                    Self::ends_round(marked, post, r)
                }
            }),
    {
        let included: bool = match metadata.ledger_inclusion_state {
            Some(LedgerInclusionState::Included) => true,
            Some(LedgerInclusionState::NoTransaction) => true,
            _ => false,
        };
        if metadata.ledger_inclusion_state == Some(LedgerInclusionState::Conflicting) {
            self.conflicting = true;
        }
        let scanned = self.attachments[self.index];
        if included {
            if scanned == self.original {
                self.phase = TrackerPhase::FetchingOriginal;
                return TrackerStep::Continue {
                    action: TrackerAction::GetBlock { block_id: self.original },
                };
            }
            let mut history: Vec<(BlockId, Block)> = Vec::new();
            core::mem::swap(&mut self.reattached, &mut history);
            let blocks = rotate_left_pairs(history, self.index);
            self.phase = TrackerPhase::Finished;
            return TrackerStep::Done { blocks };
        }
        let attachment_count = self.attachments.len();
        assert(self.index < attachment_count);
        if self.index + 1 < attachment_count {
            self.index = self.index + 1;
            self.phase = TrackerPhase::Scanning;
            let next = self.attachments[self.index];
            return TrackerStep::Continue { action: TrackerAction::GetMetadata { block_id: next } };
        }
        if metadata.should_promote == Some(true) {
            self.phase = TrackerPhase::Promoting;
            return TrackerStep::Continue { action: TrackerAction::Promote { block_id: scanned } };
        }
        if metadata.should_reattach == Some(true) {
            self.phase = TrackerPhase::Reattaching;
            return TrackerStep::Continue { action: TrackerAction::Reattach { block_id: scanned } };
        }
        self.end_round()
    }

    /// The promotion was posted; its own block is not tracked.
    pub fn on_promoted(&mut self) -> (r: TrackerStep)
        requires
            old(self).wf(),
            old(self).phase is Promoting,
        ensures
            final(self).wf(),
            Self::ends_round(*old(self), *final(self), r),
    {
        self.end_round()
    }

    /// The reattachment was posted: watch the new attachment from the next
    /// round on and record it in the history.
    pub fn on_reattached(&mut self, new_id: BlockId, new_block: Block) -> (r: TrackerStep)
        requires
            old(self).wf(),
            old(self).phase is Reattaching,
        ensures
            final(self).wf(),
            ({
                &&& final(self).attachments@ == old(self).attachments@.push(new_id)
                &&& final(self).reattached@ == old(self).reattached@.push((new_id, new_block))
                &&& final(self).original == old(self).original
                &&& final(self).interval == old(self).interval
                &&& if old(self).conflicting {
                    &&& r matches TrackerStep::Continue { action }
                        && action == (TrackerAction::GetBlock { block_id: old(self).original })
                    &&& final(self).phase is CheckingConflict
                    &&& final(self).rounds_left == old(self).rounds_left
                } else if old(self).rounds_left == 0 {
                    &&& r matches TrackerStep::Failed { error }
                        && error == (ClientError::TangleInclusionError {
                            block_id: old(self).original,
                        })
                    &&& final(self).phase is Finished
                } else {
                    &&& r matches TrackerStep::Continue { action }
                        && action == (TrackerAction::Sleep { seconds: old(self).interval })
                    &&& final(self).phase is Sleeping
                    &&& final(self).rounds_left == old(self).rounds_left - 1
                }
            }),
    {
        self.attachments.push(new_id);
        self.reattached.push((new_id, new_block));
        self.end_round()
    }

    /// The original block, just seen included, arrived: it leads the
    /// result, followed by the reattachment history in order.
    pub fn on_original_block(&mut self, block: Block) -> (r: TrackerStep)
        requires
            old(self).wf(),
            old(self).phase is FetchingOriginal,
        ensures
            final(self).phase is Finished,
            r matches TrackerStep::Done { blocks }
                && blocks@ == seq![(old(self).original, block)] + old(self).reattached@,
    {
        let mut blocks: Vec<(BlockId, Block)> = Vec::new();
        blocks.push((self.original, block));
        let mut history: Vec<(BlockId, Block)> = Vec::new();
        core::mem::swap(&mut self.reattached, &mut history);
        blocks.append(&mut history);
        self.phase = TrackerPhase::Finished;
        proof {
            assert(blocks@ =~= seq![(old(self).original, block)] + old(self).reattached@);
        }
        TrackerStep::Done { blocks }
    }

    /// The original block arrived for the conflict check. When it carries
    /// a transaction, the ledger is asked which block included that
    /// transaction; otherwise the next round begins.
    pub fn on_conflict_block(&mut self, block: &Block) -> (r: TrackerStep)
        requires
            old(self).wf(),
            old(self).phase is CheckingConflict,
        ensures
            final(self).wf(),
            ({
                match block.payload {
                    Some(Payload::Transaction(t)) => {
                        &&& r matches TrackerStep::Continue { action }
                            && action == (TrackerAction::GetIncludedBlock {
                                transaction_id: t.transaction_id,
                            })
                        &&& final(self).phase is FetchingIncluded
                        &&& Self::same_lists(*old(self), *final(self))
                    },
                    _ => Self::starts_round(*old(self), *final(self), r),
                }
            }),
    {
        match &block.payload {
            Some(Payload::Transaction(t)) => {
                self.phase = TrackerPhase::FetchingIncluded;
                TrackerStep::Continue {
                    action: TrackerAction::GetIncludedBlock { transaction_id: t.transaction_id },
                }
            },
            _ => self.begin_round(),
        }
    }

    /// The ledger's included block for the conflicted transaction arrived:
    /// it leads the result, followed by the reattachment history.
    pub fn on_included_block(&mut self, included_id: BlockId, included_block: Block) -> (r:
        TrackerStep)
        requires
            old(self).wf(),
            old(self).phase is FetchingIncluded,
        ensures
            final(self).phase is Finished,
            r matches TrackerStep::Done { blocks }
                && blocks@ == seq![(included_id, included_block)] + old(self).reattached@,
    {
        let mut blocks: Vec<(BlockId, Block)> = Vec::new();
        blocks.push((included_id, included_block));
        let mut history: Vec<(BlockId, Block)> = Vec::new();
        core::mem::swap(&mut self.reattached, &mut history);
        blocks.append(&mut history);
        self.phase = TrackerPhase::Finished;
        proof {
            assert(blocks@ =~= seq![(included_id, included_block)] + old(self).reattached@);
        }
        TrackerStep::Done { blocks }
    }

    /// The ledger knows no included block for the conflicted transaction
    /// yet: a reattachment may still confirm, so the next round begins.
    pub fn on_included_block_missed(&mut self) -> (r: TrackerStep)
        requires
            old(self).wf(),
            old(self).phase is FetchingIncluded,
        ensures
            final(self).wf(),
            Self::starts_round(*old(self), *final(self), r),
    {
        self.begin_round()
    }
}

/// Law: when a reattachment confirms and it is the only one in the
/// history, the returned list leads with it. The scan finds it at
/// position one, and rotating a one-entry history left by at most one
/// leaves that entry in front. With several reattachments the rotation
/// keeps the history's relative order, but it is the scan position, not
/// the confirmed entry, that decides which one comes first.
pub proof fn lemma_single_reattachment_leads(history: Seq<(BlockId, Block)>, index: int)
    requires
        history.len() == 1,
        0 <= index <= 1,
    ensures
        (history.skip(index) + history.take(index))[0] == history[0],
{
    if index == 0 {
        assert(history.skip(0) + history.take(0) =~= history);
    } else {
        assert((history.skip(1) + history.take(1))[0] == history.take(1)[0]);
    }
}

/// Rotates the pairs left by `k`: the first `k` pairs move, in order, to
/// the back.
fn rotate_left_pairs(pairs: Vec<(BlockId, Block)>, k: usize) -> (r: Vec<(BlockId, Block)>)
    requires
        k <= pairs@.len(),
    ensures
        r@ == pairs@.skip(k as int) + pairs@.take(k as int),
{
    let ghost orig = pairs@;
    let mut v = pairs;
    let mut j: usize = 0;
    while j < k
        invariant
            0 <= j <= k <= orig.len(),
            v@.len() == orig.len(),
            v@ == orig.skip(j as int) + orig.take(j as int),
        decreases k - j,
    {
        let x = v.remove(0);
        v.push(x);
        proof {
            assert(v@ =~= orig.skip(j + 1) + orig.take(j + 1));
        }
        j = j + 1;
    }
    proof {
        assert(v@ =~= orig.skip(k as int) + orig.take(k as int));
    }
    v
}

} // verus!
