use tangle_client::block::{Block, BlockMetadata, LedgerInclusionState, Payload};
use tangle_client::error::ClientError;
use tangle_client::ids::{BlockId, TransactionId};
use tangle_client::tracker::{InclusionTracker, TrackerAction, TrackerStep};

fn block_with_tag(nonce: u64) -> Block {
    Block { parents: Vec::new(), payload: Some(Payload::TaggedData { tag: vec![1], data: vec![2] }), nonce }
}

fn metadata(
    state: Option<LedgerInclusionState>,
    promote: Option<bool>,
    reattach: Option<bool>,
) -> BlockMetadata {
    BlockMetadata { ledger_inclusion_state: state, should_promote: promote, should_reattach: reattach }
}

fn expect_action(step: TrackerStep) -> TrackerAction {
    match step {
        TrackerStep::Continue { action } => action,
        _ => panic!("expected the engine to continue"),
    }
}

#[test]
fn reattachment_wins_after_a_conflicted_round() {
    let b = BlockId { id: 10 };
    let b2 = BlockId { id: 11 };
    let mut tracker = InclusionTracker::new(b, Some(1), Some(3));

    // Round one: the only attachment conflicts and the node recommends a
    // reattachment.
    assert_eq!(expect_action(tracker.start()), TrackerAction::Sleep { seconds: 1 });
    assert_eq!(expect_action(tracker.on_slept()), TrackerAction::GetMetadata { block_id: b });
    let step = tracker.on_metadata(metadata(
        Some(LedgerInclusionState::Conflicting),
        None,
        Some(true),
    ));
    assert_eq!(expect_action(step), TrackerAction::Reattach { block_id: b });
    let reattached_block = block_with_tag(7);
    let step = tracker.on_reattached(b2, reattached_block);
    // The round saw a conflict, so the original block is inspected; it
    // carries no transaction, so the next round begins.
    assert_eq!(expect_action(step), TrackerAction::GetBlock { block_id: b });
    let step = tracker.on_conflict_block(&block_with_tag(1));
    assert_eq!(expect_action(step), TrackerAction::Sleep { seconds: 1 });

    // Round two: the original still conflicts, the reattachment confirmed.
    assert_eq!(expect_action(tracker.on_slept()), TrackerAction::GetMetadata { block_id: b });
    let step = tracker.on_metadata(metadata(Some(LedgerInclusionState::Conflicting), None, None));
    assert_eq!(expect_action(step), TrackerAction::GetMetadata { block_id: b2 });
    let step = tracker.on_metadata(metadata(Some(LedgerInclusionState::Included), None, None));
    match step {
        TrackerStep::Done { blocks } => {
            assert_eq!(blocks.len(), 1);
            assert_eq!(blocks[0].0, b2);
            assert_eq!(blocks[0].1.nonce, 7);
        },
        _ => panic!("expected the engine to finish"),
    }
}

#[test]
fn gives_up_after_the_allowed_rounds() {
    let b = BlockId { id: 20 };
    let mut tracker = InclusionTracker::new(b, Some(1), Some(2));
    assert_eq!(expect_action(tracker.start()), TrackerAction::Sleep { seconds: 1 });
    for _round in 0..2 {
        assert_eq!(expect_action(tracker.on_slept()), TrackerAction::GetMetadata { block_id: b });
        let step = tracker.on_metadata(metadata(
            Some(LedgerInclusionState::Conflicting),
            None,
            None,
        ));
        // The conflict sends the engine through the original block, which
        // carries no transaction to look up.
        assert_eq!(expect_action(step), TrackerAction::GetBlock { block_id: b });
        let step = tracker.on_conflict_block(&block_with_tag(0));
        match step {
            TrackerStep::Continue { action } => {
                assert_eq!(action, TrackerAction::Sleep { seconds: 1 });
            },
            TrackerStep::Failed { error } => {
                assert_eq!(error, ClientError::TangleInclusionError { block_id: b });
                return;
            },
            _ => panic!("unexpected completion"),
        }
    }
    panic!("the engine should have given up after two rounds");
}

#[test]
fn original_block_leads_the_result_when_it_confirms() {
    let b = BlockId { id: 30 };
    let mut tracker = InclusionTracker::new(b, None, None);
    assert_eq!(expect_action(tracker.start()), TrackerAction::Sleep { seconds: 5 });
    assert_eq!(expect_action(tracker.on_slept()), TrackerAction::GetMetadata { block_id: b });
    let step = tracker.on_metadata(metadata(Some(LedgerInclusionState::Included), None, None));
    assert_eq!(expect_action(step), TrackerAction::GetBlock { block_id: b });
    let fetched = block_with_tag(42);
    match tracker.on_original_block(fetched) {
        TrackerStep::Done { blocks } => {
            assert_eq!(blocks.len(), 1);
            assert_eq!(blocks[0].0, b);
            assert_eq!(blocks[0].1.nonce, 42);
        },
        _ => panic!("expected the engine to finish"),
    }
}

#[test]
fn only_the_latest_attachment_is_promoted() {
    let b = BlockId { id: 40 };
    let mut tracker = InclusionTracker::new(b, Some(2), Some(5));
    assert_eq!(expect_action(tracker.start()), TrackerAction::Sleep { seconds: 2 });
    assert_eq!(expect_action(tracker.on_slept()), TrackerAction::GetMetadata { block_id: b });
    // Promotion is recommended on the last (and only) attachment, and it
    // takes precedence over reattachment.
    let step = tracker.on_metadata(metadata(None, Some(true), Some(true)));
    assert_eq!(expect_action(step), TrackerAction::Promote { block_id: b });
    // No conflict was seen, so the next round begins.
    let step = tracker.on_promoted();
    assert_eq!(expect_action(step), TrackerAction::Sleep { seconds: 2 });
}

#[test]
fn conflict_resolves_through_the_included_block() {
    let b = BlockId { id: 50 };
    let b_included = BlockId { id: 51 };
    let tx = TransactionId { id: 500 };
    let mut tracker = InclusionTracker::new(b, Some(1), Some(2));
    assert_eq!(expect_action(tracker.start()), TrackerAction::Sleep { seconds: 1 });
    assert_eq!(expect_action(tracker.on_slept()), TrackerAction::GetMetadata { block_id: b });
    let step = tracker.on_metadata(metadata(Some(LedgerInclusionState::Conflicting), None, None));
    assert_eq!(expect_action(step), TrackerAction::GetBlock { block_id: b });
    let tx_block = Block {
        parents: Vec::new(),
        payload: Some(Payload::Transaction(tangle_client::block::TransactionPayload {
            transaction_id: tx,
            inputs: Vec::new(),
            outputs: Vec::new(),
        })),
        nonce: 3,
    };
    let step = tracker.on_conflict_block(&tx_block);
    assert_eq!(expect_action(step), TrackerAction::GetIncludedBlock { transaction_id: tx });
    match tracker.on_included_block(b_included, block_with_tag(9)) {
        TrackerStep::Done { blocks } => {
            assert_eq!(blocks.len(), 1);
            assert_eq!(blocks[0].0, b_included);
        },
        _ => panic!("expected the engine to finish"),
    }
}

#[test]
fn zero_attempts_fail_immediately() {
    let b = BlockId { id: 60 };
    let mut tracker = InclusionTracker::new(b, Some(1), Some(0));
    match tracker.start() {
        TrackerStep::Failed { error } => {
            assert_eq!(error, ClientError::TangleInclusionError { block_id: b });
        },
        _ => panic!("expected immediate failure"),
    }
}

#[test]
fn rotation_keeps_the_history_order_with_two_reattachments() {
    let b = BlockId { id: 70 };
    let b2 = BlockId { id: 71 };
    let b3 = BlockId { id: 72 };
    let mut tracker = InclusionTracker::new(b, Some(1), Some(9));
    assert_eq!(expect_action(tracker.start()), TrackerAction::Sleep { seconds: 1 });

    // Two rounds each end with a reattachment of the latest attachment.
    assert_eq!(expect_action(tracker.on_slept()), TrackerAction::GetMetadata { block_id: b });
    let step = tracker.on_metadata(metadata(None, None, Some(true)));
    assert_eq!(expect_action(step), TrackerAction::Reattach { block_id: b });
    assert_eq!(expect_action(tracker.on_reattached(b2, block_with_tag(2))), TrackerAction::Sleep {
        seconds: 1,
    });
    assert_eq!(expect_action(tracker.on_slept()), TrackerAction::GetMetadata { block_id: b });
    let step = tracker.on_metadata(metadata(None, None, None));
    assert_eq!(expect_action(step), TrackerAction::GetMetadata { block_id: b2 });
    let step = tracker.on_metadata(metadata(None, None, Some(true)));
    assert_eq!(expect_action(step), TrackerAction::Reattach { block_id: b2 });
    assert_eq!(expect_action(tracker.on_reattached(b3, block_with_tag(3))), TrackerAction::Sleep {
        seconds: 1,
    });

    // The last attachment confirms at scan position two; the two-entry
    // history rotates left by two, which leaves its order unchanged.
    assert_eq!(expect_action(tracker.on_slept()), TrackerAction::GetMetadata { block_id: b });
    let step = tracker.on_metadata(metadata(None, None, None));
    assert_eq!(expect_action(step), TrackerAction::GetMetadata { block_id: b2 });
    let step = tracker.on_metadata(metadata(None, None, None));
    assert_eq!(expect_action(step), TrackerAction::GetMetadata { block_id: b3 });
    let step = tracker.on_metadata(metadata(Some(LedgerInclusionState::Included), None, None));
    match step {
        TrackerStep::Done { blocks } => {
            assert_eq!(blocks.len(), 2);
            assert_eq!(blocks[0].0, b2);
            assert_eq!(blocks[1].0, b3);
        },
        _ => panic!("expected the engine to finish"),
    }
}

#[test]
fn missing_included_block_continues_with_the_next_round() {
    let b = BlockId { id: 80 };
    let tx = TransactionId { id: 800 };
    let mut tracker = InclusionTracker::new(b, Some(1), Some(2));
    assert_eq!(expect_action(tracker.start()), TrackerAction::Sleep { seconds: 1 });
    assert_eq!(expect_action(tracker.on_slept()), TrackerAction::GetMetadata { block_id: b });
    let step = tracker.on_metadata(metadata(Some(LedgerInclusionState::Conflicting), None, None));
    assert_eq!(expect_action(step), TrackerAction::GetBlock { block_id: b });
    let tx_block = Block {
        parents: Vec::new(),
        payload: Some(Payload::Transaction(tangle_client::block::TransactionPayload {
            transaction_id: tx,
            inputs: Vec::new(),
            outputs: Vec::new(),
        })),
        nonce: 0,
    };
    let step = tracker.on_conflict_block(&tx_block);
    assert_eq!(expect_action(step), TrackerAction::GetIncludedBlock { transaction_id: tx });
    // The ledger has not included the transaction anywhere: the engine
    // sleeps into its second and last round rather than aborting.
    let step = tracker.on_included_block_missed();
    assert_eq!(expect_action(step), TrackerAction::Sleep { seconds: 1 });
}
