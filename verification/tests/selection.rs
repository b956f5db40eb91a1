use tangle_client::error::ClientError;
use tangle_client::ids::{OutputId, TransactionId};
use tangle_client::input_selection::{
    candidate_output_ids, select_from_sorted, select_inputs, sort_candidates_descending,
    InputCandidate,
};

fn candidate(tx: u64, index: u16, amount: u64) -> InputCandidate {
    InputCandidate {
        output_id: OutputId { transaction_id: TransactionId { id: tx }, index },
        amount,
    }
}

fn pool() -> Vec<InputCandidate> {
    vec![
        candidate(1, 0, 600),
        candidate(2, 0, 400),
        candidate(3, 0, 400),
        candidate(4, 0, 300),
    ]
}

#[test]
fn covers_exact_target_with_two_largest() {
    let selected = select_inputs(pool(), 1000).unwrap();
    let amounts: Vec<u64> = selected.iter().map(|c| c.amount).collect();
    assert_eq!(amounts, vec![600, 400]);
    assert_eq!(amounts.iter().sum::<u64>(), 1000);
}

#[test]
fn passes_target_with_three_inputs() {
    let selected = select_inputs(pool(), 1001).unwrap();
    let amounts: Vec<u64> = selected.iter().map(|c| c.amount).collect();
    assert_eq!(amounts, vec![600, 400, 400]);
    assert_eq!(amounts.iter().sum::<u64>(), 1400);
    // The two 400-amount outputs keep their original relative order.
    assert_eq!(selected[1].output_id.transaction_id.id, 2);
    assert_eq!(selected[2].output_id.transaction_id.id, 3);
}

#[test]
fn reports_not_enough_balance() {
    let err = select_inputs(pool(), 5000).unwrap_err();
    assert_eq!(err, ClientError::NotEnoughBalance { found: 1700, required: 5000 });
}

#[test]
fn zero_target_selects_nothing() {
    let selected = select_inputs(pool(), 0).unwrap();
    assert!(selected.is_empty());
}

#[test]
fn empty_pool_fails_unless_target_is_zero() {
    let err = select_inputs(Vec::new(), 1).unwrap_err();
    assert_eq!(err, ClientError::NotEnoughBalance { found: 0, required: 1 });
    assert!(select_inputs(Vec::new(), 0).unwrap().is_empty());
}

#[test]
fn sort_is_descending_and_keeps_every_candidate() {
    let sorted = sort_candidates_descending(pool());
    let amounts: Vec<u64> = sorted.iter().map(|c| c.amount).collect();
    assert_eq!(amounts, vec![600, 400, 400, 300]);
}

#[test]
fn selection_stops_at_first_prefix_reaching_target() {
    let sorted = sort_candidates_descending(pool());
    let selected = select_from_sorted(sorted, 600).unwrap();
    assert_eq!(selected.len(), 1);
    assert_eq!(selected[0].amount, 600);
}

#[test]
fn selected_ids_come_out_in_selection_order() {
    let selected = select_inputs(pool(), 1000).unwrap();
    let ids = candidate_output_ids(&selected);
    assert_eq!(ids.len(), 2);
    assert_eq!(ids[0].transaction_id.id, 1);
    assert_eq!(ids[1].transaction_id.id, 2);
}

#[test]
fn never_selects_more_than_the_input_limit() {
    let mut many: Vec<InputCandidate> = Vec::new();
    for i in 0..200u64 {
        many.push(candidate(i, 0, 1));
    }
    let err = select_inputs(many.clone(), 150).unwrap_err();
    assert_eq!(err, ClientError::NotEnoughBalance { found: 128, required: 150 });
    let selected = select_inputs(many, 128).unwrap();
    assert_eq!(selected.len(), 128);
}
