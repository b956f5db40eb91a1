use tangle_client::account::{
    account_balance, record_sync_time, sync_gate, update_account, AccountAddress, AccountState,
    AddressWithBalance, InclusionState, OutputData, SyncOptions, TransactionData,
    TransactionSyncResult,
};
use tangle_client::error::ClientError;
use tangle_client::ids::{Address, OutputId, TransactionId};
use tangle_client::MIN_SYNC_INTERVAL;

fn addr(n: u64) -> Address {
    Address::Ed25519 { key_hash: n }
}

fn output_id(tx: u64, index: u16) -> OutputId {
    OutputId { transaction_id: TransactionId { id: tx }, index }
}

fn output(tx: u64, amount: u64, is_spent: bool) -> OutputData {
    OutputData { output_id: output_id(tx, 0), amount, address: addr(tx), is_spent }
}

fn base_state() -> AccountState {
    AccountState {
        internal_addresses: vec![AccountAddress {
            address: addr(100),
            key_index: 0,
            internal: true,
            used: false,
        }],
        public_addresses: vec![
            AccountAddress { address: addr(200), key_index: 0, internal: false, used: false },
            AccountAddress { address: addr(201), key_index: 1, internal: false, used: false },
        ],
        addresses_with_balance: vec![AddressWithBalance {
            address: addr(200),
            key_index: 0,
            internal: false,
            amount: 50,
        }],
        outputs: Vec::new(),
        unspent_outputs: Vec::new(),
        locked_outputs: Vec::new(),
        transactions: vec![TransactionData {
            transaction_id: TransactionId { id: 900 },
            inclusion_state: InclusionState::Pending,
        }],
        pending_transactions: vec![TransactionId { id: 900 }],
        last_synced: 0,
    }
}

fn no_updates() -> TransactionSyncResult {
    TransactionSyncResult {
        updated_transactions: Vec::new(),
        spent_output_ids: Vec::new(),
        output_ids_to_unlock: Vec::new(),
    }
}

#[test]
fn commit_records_outputs_and_marks_addresses_used() {
    let mut state = base_state();
    let synced = vec![AddressWithBalance {
        address: addr(201),
        key_index: 1,
        internal: false,
        amount: 700,
    }];
    let fresh = vec![output(1, 700, false), output(2, 30, true)];
    let options = SyncOptions { address_start_index: 1, force_syncing: false };
    update_account(&mut state, synced, fresh, no_updates(), &options).unwrap();

    assert!(state.public_addresses[1].used);
    assert!(!state.public_addresses[0].used);
    assert!(!state.internal_addresses[0].used);

    // The old entry sits below the start index and survives; the fresh
    // entry follows it.
    assert_eq!(state.addresses_with_balance.len(), 2);
    assert_eq!(state.addresses_with_balance[0].amount, 50);
    assert_eq!(state.addresses_with_balance[1].amount, 700);

    // Both observations are stored; only the unspent one is derivable.
    assert_eq!(state.outputs.len(), 2);
    assert_eq!(state.unspent_outputs.len(), 1);
    assert_eq!(state.unspent_outputs[0].output_id, output_id(1, 0));
}

#[test]
fn commit_replaces_balances_above_the_start_index() {
    let mut state = base_state();
    let options = SyncOptions { address_start_index: 0, force_syncing: false };
    update_account(&mut state, Vec::new(), Vec::new(), no_updates(), &options).unwrap();
    // With start index zero nothing is carried over, and nothing fresh
    // came: the balance list is empty.
    assert!(state.addresses_with_balance.is_empty());
}

#[test]
fn missing_address_aborts_the_commit_untouched() {
    let mut state = base_state();
    let before = state.clone();
    let synced = vec![AddressWithBalance {
        address: addr(999),
        key_index: 7,
        internal: false,
        amount: 1,
    }];
    let options = SyncOptions { address_start_index: 0, force_syncing: false };
    let err = update_account(&mut state, synced, vec![output(5, 5, false)], no_updates(), &options)
        .unwrap_err();
    assert_eq!(err, ClientError::InputAddressNotFound);
    assert_eq!(state, before);
}

#[test]
fn confirmed_transactions_leave_the_pending_set() {
    let mut state = base_state();
    let updates = TransactionSyncResult {
        updated_transactions: vec![TransactionData {
            transaction_id: TransactionId { id: 900 },
            inclusion_state: InclusionState::Confirmed,
        }],
        spent_output_ids: Vec::new(),
        output_ids_to_unlock: Vec::new(),
    };
    let options = SyncOptions { address_start_index: 0, force_syncing: false };
    update_account(&mut state, Vec::new(), Vec::new(), updates, &options).unwrap();
    assert!(state.pending_transactions.is_empty());
    assert_eq!(state.transactions.len(), 1);
    assert_eq!(state.transactions[0].inclusion_state, InclusionState::Confirmed);
}

#[test]
fn pending_updates_stay_pending() {
    let mut state = base_state();
    let updates = TransactionSyncResult {
        updated_transactions: vec![TransactionData {
            transaction_id: TransactionId { id: 900 },
            inclusion_state: InclusionState::Pending,
        }],
        spent_output_ids: Vec::new(),
        output_ids_to_unlock: Vec::new(),
    };
    let options = SyncOptions { address_start_index: 0, force_syncing: false };
    update_account(&mut state, Vec::new(), Vec::new(), updates, &options).unwrap();
    assert_eq!(state.pending_transactions, vec![TransactionId { id: 900 }]);
}

#[test]
fn spent_outputs_are_marked_released_and_dropped() {
    let mut state = base_state();
    state.outputs = vec![output(1, 700, false)];
    state.unspent_outputs = vec![output(1, 700, false)];
    state.locked_outputs = vec![output_id(1, 0)];
    let updates = TransactionSyncResult {
        updated_transactions: Vec::new(),
        spent_output_ids: vec![output_id(1, 0)],
        output_ids_to_unlock: Vec::new(),
    };
    let options = SyncOptions { address_start_index: 0, force_syncing: false };
    update_account(&mut state, Vec::new(), Vec::new(), updates, &options).unwrap();
    assert!(state.outputs[0].is_spent);
    assert!(state.unspent_outputs.is_empty());
    assert!(state.locked_outputs.is_empty());
}

#[test]
fn conflicted_reservations_are_released_too() {
    let mut state = base_state();
    state.outputs = vec![output(1, 700, false)];
    state.unspent_outputs = vec![output(1, 700, false)];
    state.locked_outputs = vec![output_id(1, 0)];
    let updates = TransactionSyncResult {
        updated_transactions: Vec::new(),
        spent_output_ids: Vec::new(),
        output_ids_to_unlock: vec![output_id(1, 0)],
    };
    let options = SyncOptions { address_start_index: 0, force_syncing: false };
    update_account(&mut state, Vec::new(), Vec::new(), updates, &options).unwrap();
    assert!(state.outputs[0].is_spent);
    assert!(state.locked_outputs.is_empty());
    // The unspent store still matches the output store.
    assert!(state.unspent_outputs.is_empty());
}

#[test]
fn unspent_store_always_matches_outputs_after_a_commit() {
    let mut state = base_state();
    let fresh = vec![output(1, 10, false), output(2, 20, true), output(3, 30, false)];
    let options = SyncOptions { address_start_index: 0, force_syncing: false };
    update_account(&mut state, Vec::new(), fresh, no_updates(), &options).unwrap();
    for o in &state.outputs {
        let derived = state.unspent_outputs.iter().find(|u| u.output_id == o.output_id);
        if o.is_spent {
            assert!(derived.is_none());
        } else {
            assert_eq!(derived.unwrap(), o);
        }
    }
}

#[test]
fn second_sync_within_the_interval_is_skipped() {
    let mut state = base_state();
    // The first synchronization completes and records its start time.
    record_sync_time(&mut state, 1_000_000);
    let before = state.clone();
    // A second one begins within the minimum interval: it is skipped, and
    // without a commit the account, its timestamp, and the balance it
    // reports keep the values the first one left.
    let again = 1_000_000 + MIN_SYNC_INTERVAL - 1;
    assert!(!sync_gate(state.last_synced, again, false));
    assert_eq!(state, before);
    assert_eq!(account_balance(&state), account_balance(&before));
    // Past the interval, or when forced, the pass proceeds.
    assert!(sync_gate(state.last_synced, 1_000_000 + MIN_SYNC_INTERVAL, false));
    assert!(sync_gate(state.last_synced, again, true));
}

#[test]
fn balance_splits_total_and_available() {
    let mut state = base_state();
    state.outputs = vec![output(1, 100, false), output(2, 250, false)];
    state.unspent_outputs = vec![output(1, 100, false), output(2, 250, false)];
    state.locked_outputs = vec![output_id(1, 0)];
    let balance = account_balance(&state);
    assert_eq!(balance.total, 350);
    assert_eq!(balance.available, 250);
}
