//! Account state and its synchronization commit.
//!
//! An account tracks derived addresses, the outputs seen on them, and the
//! transactions it has submitted. A synchronization pass gathers fresh
//! observations from the node and commits them here in one step; the
//! commit is the only mutation, so a failed pass leaves the state as it
//! was. Keyed collections are held as vectors with unique keys; the
//! address book is kept sorted by key index so lookups can bisect.

use vstd::prelude::*;
use crate::MIN_SYNC_INTERVAL;
use crate::error::ClientError;
use crate::ids::{Address, OutputId, TransactionId};

verus! {

broadcast use vstd::seq_lib::lemma_seq_contains_after_push, Seq::lemma_take_succ_push, Seq::lemma_filter_push;

/// How far a tracked transaction has progressed on the ledger.
#[derive(Clone, Copy, PartialEq, Eq, Structural, Debug)]
pub enum InclusionState {
    /// Submitted, not yet referenced by a milestone.
    Pending,
    /// Referenced by a milestone and applied.
    Confirmed,
    /// Rejected: it conflicts with an applied transaction.
    Conflicting,
}

/// An output as the account stores it.
#[derive(Clone, Copy, PartialEq, Eq, Structural, Debug)]
pub struct OutputData {
    pub output_id: OutputId,
    pub amount: u64,
    pub address: Address,
    pub is_spent: bool,
}

/// A transaction as the account stores it.
#[derive(Clone, Copy, PartialEq, Eq, Structural, Debug)]
pub struct TransactionData {
    pub transaction_id: TransactionId,
    pub inclusion_state: InclusionState,
}

/// An entry of the account's address book.
#[derive(Clone, Copy, PartialEq, Eq, Structural, Debug)]
pub struct AccountAddress {
    pub address: Address,
    pub key_index: u32,
    pub internal: bool,
    pub used: bool,
}

/// An address together with the balance synthesized for it during a
/// synchronization pass.
#[derive(Clone, Copy, PartialEq, Eq, Structural, Debug)]
pub struct AddressWithBalance {
    pub address: Address,
    pub key_index: u32,
    pub internal: bool,
    pub amount: u64,
}

/// What the transaction-synchronization subroutine found: transactions
/// whose state changed, outputs seen spent, and outputs to release from
/// the in-flight reservation because their transaction conflicted.
#[derive(Clone, PartialEq, Eq, Debug)]
pub struct TransactionSyncResult {
    pub updated_transactions: Vec<TransactionData>,
    pub spent_output_ids: Vec<OutputId>,
    pub output_ids_to_unlock: Vec<OutputId>,
}

/// Caller-chosen knobs of a synchronization pass.
#[derive(Clone, Copy, PartialEq, Eq, Structural, Debug)]
pub struct SyncOptions {
    /// Addresses below this key index are not synchronized; their old
    /// balance entries are carried over.
    pub address_start_index: u32,
    /// Synchronize even when the minimum interval has not elapsed.
    pub force_syncing: bool,
}

/// The funds an account controls.
#[derive(Clone, Copy, PartialEq, Eq, Structural, Debug)]
pub struct AccountBalance {
    /// Total of the unspent outputs.
    pub total: u64,
    /// Total minus what is reserved by in-flight transactions.
    pub available: u64,
}

/// The persisted state of one account.
#[derive(Clone, PartialEq, Eq, Debug)]
pub struct AccountState {
    /// Change addresses, sorted by key index.
    pub internal_addresses: Vec<AccountAddress>,
    /// Receive addresses, sorted by key index.
    pub public_addresses: Vec<AccountAddress>,
    /// Balance per address as of the last synchronization.
    pub addresses_with_balance: Vec<AddressWithBalance>,
    /// Every output ever observed, spent ones included.
    pub outputs: Vec<OutputData>,
    /// Exactly the outputs of `outputs` that are not spent.
    pub unspent_outputs: Vec<OutputData>,
    /// Outputs reserved as inputs of in-flight transactions.
    pub locked_outputs: Vec<OutputId>,
    /// Every transaction this account submitted.
    pub transactions: Vec<TransactionData>,
    /// Submitted transactions not yet confirmed or conflicting.
    pub pending_transactions: Vec<TransactionId>,
    /// When the last successful synchronization began, in epoch millis.
    pub last_synced: u128,
}

// Spec views of the keyed vectors.

/// Whether an output with this id is stored.
pub open spec fn has_output(s: Seq<OutputData>, id: OutputId) -> bool {
    exists|i: int| 0 <= i < s.len() && s[i].output_id == id
}

/// The position of the output with this id.
pub open spec fn output_index(s: Seq<OutputData>, id: OutputId) -> int {
    choose|i: int| 0 <= i < s.len() && s[i].output_id == id
}

/// The stored output with this id.
pub open spec fn output_at(s: Seq<OutputData>, id: OutputId) -> OutputData {
    s[output_index(s, id)]
}

/// No two stored outputs share an id.
pub open spec fn output_ids_unique(s: Seq<OutputData>) -> bool {
    forall|i: int, j: int| 0 <= i < j < s.len() ==> s[i].output_id != s[j].output_id
}

/// Whether a transaction with this id is stored.
pub open spec fn has_transaction(s: Seq<TransactionData>, id: TransactionId) -> bool {
    exists|i: int| 0 <= i < s.len() && s[i].transaction_id == id
}

/// The position of the transaction with this id.
pub open spec fn transaction_index(s: Seq<TransactionData>, id: TransactionId) -> int {
    choose|i: int| 0 <= i < s.len() && s[i].transaction_id == id
}

/// The stored transaction with this id.
pub open spec fn transaction_at(s: Seq<TransactionData>, id: TransactionId) -> TransactionData {
    s[transaction_index(s, id)]
}

/// No two stored transactions share an id.
pub open spec fn transaction_ids_unique(s: Seq<TransactionData>) -> bool {
    forall|i: int, j: int| 0 <= i < j < s.len() ==> s[i].transaction_id != s[j].transaction_id
}

/// No element occurs twice.
pub open spec fn output_id_set(s: Seq<OutputId>) -> bool {
    forall|i: int, j: int| 0 <= i < j < s.len() ==> s[i] != s[j]
}

/// No element occurs twice.
pub open spec fn transaction_id_set(s: Seq<TransactionId>) -> bool {
    forall|i: int, j: int| 0 <= i < j < s.len() ==> s[i] != s[j]
}

/// The address book half is sorted strictly by key index.
pub open spec fn addresses_sorted(s: Seq<AccountAddress>) -> bool {
    forall|i: int, j: int| 0 <= i < j < s.len() ==> s[i].key_index < s[j].key_index
}

/// Every entry carries this `internal` flag.
pub open spec fn addresses_flagged(s: Seq<AccountAddress>, internal: bool) -> bool {
    forall|i: int| 0 <= i < s.len() ==> s[i].internal == internal
}

/// The derived store matches its definition: the unspent outputs are
/// exactly the stored outputs that are not spent, with the same contents.
pub open spec fn unspent_coherent(outputs: Seq<OutputData>, unspent: Seq<OutputData>) -> bool {
    &&& forall|id: OutputId|
        #[trigger] has_output(unspent, id) <==> (has_output(outputs, id) && !output_at(
            outputs,
            id,
        ).is_spent)
    &&& forall|id: OutputId|
        #[trigger] has_output(unspent, id) ==> output_at(unspent, id) == output_at(outputs, id)
}

/// The derived store of an account matches its definition.
pub open spec fn unspent_matches_outputs(state: AccountState) -> bool {
    unspent_coherent(state.outputs@, state.unspent_outputs@)
}

/// No pending transaction has reached a final state, and each one is
/// stored.
pub open spec fn pending_coherent(
    transactions: Seq<TransactionData>,
    pending: Seq<TransactionId>,
) -> bool {
    forall|k: int|
        0 <= k < pending.len() ==> {
            let id = #[trigger] pending[k];
            &&& has_transaction(transactions, id)
            &&& !(transaction_at(transactions, id).inclusion_state is Confirmed)
            &&& !(transaction_at(transactions, id).inclusion_state is Conflicting)
        }
}

/// No pending transaction of the account has reached a final state.
pub open spec fn pending_consistent(state: AccountState) -> bool {
    pending_coherent(state.transactions@, state.pending_transactions@)
}

impl AccountState {
    /// The account invariant, re-established by every commit.
    pub open spec fn wf(self) -> bool {
        &&& addresses_sorted(self.internal_addresses@)
        &&& addresses_sorted(self.public_addresses@)
        &&& addresses_flagged(self.internal_addresses@, true)
        &&& addresses_flagged(self.public_addresses@, false)
        &&& output_ids_unique(self.outputs@)
        &&& output_ids_unique(self.unspent_outputs@)
        &&& transaction_ids_unique(self.transactions@)
        &&& output_id_set(self.locked_outputs@)
        &&& transaction_id_set(self.pending_transactions@)
        &&& unspent_matches_outputs(self)
        &&& pending_consistent(self)
    }
}

/// The position of the entry with this id is whatever index exhibits it.
proof fn lemma_output_index_is(s: Seq<OutputData>, id: OutputId, i: int)
    requires
        output_ids_unique(s),
        0 <= i < s.len(),
        s[i].output_id == id,
    ensures
        has_output(s, id),
        output_index(s, id) == i,
        output_at(s, id) == s[i],
{
    assert(has_output(s, id));
    let j = output_index(s, id);
    assert(0 <= j < s.len() && s[j].output_id == id);
    if i < j {
        assert(s[i].output_id != s[j].output_id);
    } else if j < i {
        assert(s[j].output_id != s[i].output_id);
    }
}

/// The position of the entry with this id is whatever index exhibits it.
proof fn lemma_transaction_index_is(s: Seq<TransactionData>, id: TransactionId, i: int)
    requires
        transaction_ids_unique(s),
        0 <= i < s.len(),
        s[i].transaction_id == id,
    ensures
        has_transaction(s, id),
        transaction_index(s, id) == i,
        transaction_at(s, id) == s[i],
{
    assert(has_transaction(s, id));
    let j = transaction_index(s, id);
    assert(0 <= j < s.len() && s[j].transaction_id == id);
    if i < j {
        assert(s[i].transaction_id != s[j].transaction_id);
    } else if j < i {
        assert(s[j].transaction_id != s[i].transaction_id);
    }
}

/// Finds the position of the output with this id, if it is stored.
fn find_output_position(v: &Vec<OutputData>, id: OutputId) -> (r: Option<usize>)
    ensures
        match r {
            Some(i) => 0 <= i < v@.len() && v@[i as int].output_id == id,
            None => !has_output(v@, id),
        },
{
    let mut i: usize = 0;
    while i < v.len()
        invariant
            0 <= i <= v@.len(),
            forall|k: int| 0 <= k < i ==> v@[k].output_id != id,
        decreases v@.len() - i,
    {
        if v[i].output_id == id {
            return Some(i);
        }
        i = i + 1;
    }
    None
}

/// Finds the position of the transaction with this id, if it is stored.
fn find_transaction_position(v: &Vec<TransactionData>, id: TransactionId) -> (r: Option<usize>)
    ensures
        match r {
            Some(i) => 0 <= i < v@.len() && v@[i as int].transaction_id == id,
            None => !has_transaction(v@, id),
        },
{
    let mut i: usize = 0;
    while i < v.len()
        invariant
            0 <= i <= v@.len(),
            forall|k: int| 0 <= k < i ==> v@[k].transaction_id != id,
        decreases v@.len() - i,
    {
        if v[i].transaction_id == id {
            return Some(i);
        }
        i = i + 1;
    }
    None
}

/// Stores the output under its id, replacing a stored one.
fn upsert_output(v: &mut Vec<OutputData>, output: OutputData)
    requires
        output_ids_unique(old(v)@),
    ensures
        output_ids_unique(final(v)@),
        has_output(final(v)@, output.output_id),
        output_at(final(v)@, output.output_id) == output,
        forall|id: OutputId|
            id != output.output_id ==> #[trigger] has_output(final(v)@, id) == has_output(
                old(v)@,
                id,
            ),
        forall|id: OutputId|
            id != output.output_id && has_output(old(v)@, id) ==> #[trigger] output_at(
                final(v)@,
                id,
            ) == output_at(old(v)@, id),
{
    let ghost pre = v@;
    match find_output_position(v, output.output_id) {
        Some(i) => {
            v.set(i, output);
            proof {
                assert forall|id: OutputId| id != output.output_id implies #[trigger] has_output(
                    v@,
                    id,
                ) == has_output(pre, id) by {
                    if has_output(v@, id) {
                        let j = choose|j: int| 0 <= j < v@.len() && v@[j].output_id == id;
                        assert(pre[j].output_id == id);
                    }
                    if has_output(pre, id) {
                        let j = choose|j: int| 0 <= j < pre.len() && pre[j].output_id == id;
                        assert(v@[j].output_id == id);
                    }
                }
                assert forall|id: OutputId|
                    id != output.output_id && has_output(pre, id) implies #[trigger] output_at(
                    v@,
                    id,
                ) == output_at(pre, id) by {
                    let j = choose|j: int| 0 <= j < pre.len() && pre[j].output_id == id;
                    lemma_output_index_is(pre, id, j);
                    lemma_output_index_is(v@, id, j);
                }
                lemma_output_index_is(v@, output.output_id, i as int);
            }
        },
        None => {
            v.push(output);
            proof {
                assert forall|id: OutputId| id != output.output_id implies #[trigger] has_output(
                    v@,
                    id,
                ) == has_output(pre, id) by {
                    if has_output(v@, id) {
                        let j = choose|j: int| 0 <= j < v@.len() && v@[j].output_id == id;
                        assert(pre[j].output_id == id);
                    }
                    if has_output(pre, id) {
                        let j = choose|j: int| 0 <= j < pre.len() && pre[j].output_id == id;
                        assert(v@[j].output_id == id);
                    }
                }
                assert forall|id: OutputId|
                    id != output.output_id && has_output(pre, id) implies #[trigger] output_at(
                    v@,
                    id,
                ) == output_at(pre, id) by {
                    let j = choose|j: int| 0 <= j < pre.len() && pre[j].output_id == id;
                    lemma_output_index_is(pre, id, j);
                    lemma_output_index_is(v@, id, j);
                }
                lemma_output_index_is(v@, output.output_id, v@.len() - 1);
            }
        },
    }
}

/// Removes the output with this id, if it is stored.
fn remove_output(v: &mut Vec<OutputData>, id: OutputId)
    requires
        output_ids_unique(old(v)@),
    ensures
        output_ids_unique(final(v)@),
        !has_output(final(v)@, id),
        forall|id2: OutputId|
            id2 != id ==> #[trigger] has_output(final(v)@, id2) == has_output(old(v)@, id2),
        forall|id2: OutputId|
            id2 != id && has_output(old(v)@, id2) ==> #[trigger] output_at(final(v)@, id2)
                == output_at(old(v)@, id2),
{
    let ghost pre = v@;
    match find_output_position(v, id) {
        Some(i) => {
            v.remove(i);
            proof {
                pre.remove_ensures(i as int);
                assert forall|j: int| 0 <= j < v@.len() implies v@[j] == (if j < i {
                    pre[j]
                } else {
                    pre[j + 1]
                }) by {
                    assert(v@ == pre.remove(i as int));
                }
                assert forall|id2: OutputId| id2 != id implies #[trigger] has_output(v@, id2)
                    == has_output(pre, id2) by {
                    if has_output(v@, id2) {
                        let j = choose|j: int| 0 <= j < v@.len() && v@[j].output_id == id2;
                        if j < i {
                            assert(pre[j].output_id == id2);
                        } else {
                            assert(pre[j + 1].output_id == id2);
                        }
                    }
                    if has_output(pre, id2) {
                        let j = choose|j: int| 0 <= j < pre.len() && pre[j].output_id == id2;
                        if j < i {
                            assert(v@[j].output_id == id2);
                        } else {
                            assert(j != i);
                            assert(v@[j - 1].output_id == id2);
                        }
                    }
                }
                assert(!has_output(v@, id)) by {
                    if has_output(v@, id) {
                        let j = choose|j: int| 0 <= j < v@.len() && v@[j].output_id == id;
                        if j < i {
                            assert(pre[j].output_id == id && pre[i as int].output_id == id);
                        } else {
                            assert(pre[j + 1].output_id == id && pre[i as int].output_id == id);
                        }
                    }
                }
                assert forall|id2: OutputId|
                    id2 != id && has_output(pre, id2) implies #[trigger] output_at(v@, id2)
                    == output_at(pre, id2) by {
                    let j = choose|j: int| 0 <= j < pre.len() && pre[j].output_id == id2;
                    lemma_output_index_is(pre, id2, j);
                    if j < i {
                        lemma_output_index_is(v@, id2, j);
                    } else {
                        assert(j != i);
                        assert(v@[j - 1].output_id == id2);
                        lemma_output_index_is(v@, id2, j - 1);
                    }
                }
            }
        },
        None => {},
    }
}

/// Marks the output with this id spent, if it is stored.
fn mark_output_spent(v: &mut Vec<OutputData>, id: OutputId)
    requires
        output_ids_unique(old(v)@),
    ensures
        output_ids_unique(final(v)@),
        forall|id2: OutputId|
            #[trigger] has_output(final(v)@, id2) == has_output(old(v)@, id2),
        has_output(old(v)@, id) ==> output_at(final(v)@, id) == (OutputData {
            is_spent: true,
            ..output_at(old(v)@, id)
        }),
        forall|id2: OutputId|
            id2 != id && has_output(old(v)@, id2) ==> #[trigger] output_at(final(v)@, id2)
                == output_at(old(v)@, id2),
{
    let ghost pre = v@;
    match find_output_position(v, id) {
        Some(i) => {
            let entry = v[i];
            v.set(
                i,
                OutputData {
                    output_id: entry.output_id,
                    amount: entry.amount,
                    address: entry.address,
                    is_spent: true,
                },
            );
            proof {
                assert forall|id2: OutputId| #[trigger] has_output(v@, id2) == has_output(
                    pre,
                    id2,
                ) by {
                    if has_output(v@, id2) {
                        let j = choose|j: int| 0 <= j < v@.len() && v@[j].output_id == id2;
                        assert(pre[j].output_id == id2);
                    }
                    if has_output(pre, id2) {
                        let j = choose|j: int| 0 <= j < pre.len() && pre[j].output_id == id2;
                        assert(v@[j].output_id == id2);
                    }
                }
                lemma_output_index_is(pre, id, i as int);
                lemma_output_index_is(v@, id, i as int);
                assert forall|id2: OutputId|
                    id2 != id && has_output(pre, id2) implies #[trigger] output_at(v@, id2)
                    == output_at(pre, id2) by {
                    let j = choose|j: int| 0 <= j < pre.len() && pre[j].output_id == id2;
                    lemma_output_index_is(pre, id2, j);
                    lemma_output_index_is(v@, id2, j);
                }
            }
        },
        None => {},
    }
}

/// Stores the transaction under its id, replacing a stored one.
fn upsert_transaction(v: &mut Vec<TransactionData>, transaction: TransactionData)
    requires
        transaction_ids_unique(old(v)@),
    ensures
        transaction_ids_unique(final(v)@),
        has_transaction(final(v)@, transaction.transaction_id),
        transaction_at(final(v)@, transaction.transaction_id) == transaction,
        forall|id: TransactionId|
            id != transaction.transaction_id ==> #[trigger] has_transaction(final(v)@, id)
                == has_transaction(old(v)@, id),
        forall|id: TransactionId|
            id != transaction.transaction_id && has_transaction(old(v)@, id)
                ==> #[trigger] transaction_at(final(v)@, id) == transaction_at(old(v)@, id),
{
    let ghost pre = v@;
    match find_transaction_position(v, transaction.transaction_id) {
        Some(i) => {
            v.set(i, transaction);
            proof {
                assert forall|id: TransactionId|
                    id != transaction.transaction_id implies #[trigger] has_transaction(v@, id)
                    == has_transaction(pre, id) by {
                    if has_transaction(v@, id) {
                        let j = choose|j: int| 0 <= j < v@.len() && v@[j].transaction_id == id;
                        assert(pre[j].transaction_id == id);
                    }
                    if has_transaction(pre, id) {
                        let j = choose|j: int| 0 <= j < pre.len() && pre[j].transaction_id == id;
                        assert(v@[j].transaction_id == id);
                    }
                }
                assert forall|id: TransactionId|
                    id != transaction.transaction_id && has_transaction(pre, id)
                    implies #[trigger] transaction_at(v@, id) == transaction_at(pre, id) by {
                    let j = choose|j: int| 0 <= j < pre.len() && pre[j].transaction_id == id;
                    lemma_transaction_index_is(pre, id, j);
                    lemma_transaction_index_is(v@, id, j);
                }
                lemma_transaction_index_is(v@, transaction.transaction_id, i as int);
            }
        },
        None => {
            v.push(transaction);
            proof {
                assert forall|id: TransactionId|
                    id != transaction.transaction_id implies #[trigger] has_transaction(v@, id)
                    == has_transaction(pre, id) by {
                    if has_transaction(v@, id) {
                        let j = choose|j: int| 0 <= j < v@.len() && v@[j].transaction_id == id;
                        assert(pre[j].transaction_id == id);
                    }
                    if has_transaction(pre, id) {
                        let j = choose|j: int| 0 <= j < pre.len() && pre[j].transaction_id == id;
                        assert(v@[j].transaction_id == id);
                    }
                }
                assert forall|id: TransactionId|
                    id != transaction.transaction_id && has_transaction(pre, id)
                    implies #[trigger] transaction_at(v@, id) == transaction_at(pre, id) by {
                    let j = choose|j: int| 0 <= j < pre.len() && pre[j].transaction_id == id;
                    lemma_transaction_index_is(pre, id, j);
                    lemma_transaction_index_is(v@, id, j);
                }
                lemma_transaction_index_is(v@, transaction.transaction_id, v@.len() - 1);
            }
        },
    }
}

/// Removes an output id from a duplicate-free list of ids.
fn remove_output_id(v: &mut Vec<OutputId>, id: OutputId)
    requires
        output_id_set(old(v)@),
    ensures
        output_id_set(final(v)@),
        !final(v)@.contains(id),
        forall|id2: OutputId|
            id2 != id ==> #[trigger] final(v)@.contains(id2) == old(v)@.contains(id2),
{
    let ghost pre = v@;
    let mut out: Vec<OutputId> = Vec::new();
    let mut i: usize = 0;
    while i < v.len()
        invariant
            0 <= i <= v@.len(),
            v@ == pre,
            output_id_set(pre),
            output_id_set(out@),
            forall|id2: OutputId|
                #[trigger] out@.contains(id2) == (pre.take(i as int).contains(id2) && id2 != id),
        decreases v@.len() - i,
    {
        let candidate = v[i];
        if candidate != id {
            proof {
                assert(!out@.contains(candidate)) by {
                    if pre.take(i as int).contains(candidate) {
                        let k = choose|k: int|
                            0 <= k < i && pre.take(i as int)[k] == candidate;
                        assert(pre[k] == pre[i as int]);
                    }
                }
            }
            out.push(candidate);
        }
        proof {
            assert(pre.take(i + 1) == pre.take(i as int).push(pre[i as int]));
        }
        i = i + 1;
    }
    proof {
        assert(pre.take(pre.len() as int) =~= pre);
    }
    *v = out;
}

/// Removes a transaction id from a duplicate-free list of ids.
fn remove_transaction_id(v: &mut Vec<TransactionId>, id: TransactionId)
    requires
        transaction_id_set(old(v)@),
    ensures
        transaction_id_set(final(v)@),
        !final(v)@.contains(id),
        forall|id2: TransactionId|
            id2 != id ==> #[trigger] final(v)@.contains(id2) == old(v)@.contains(id2),
{
    let ghost pre = v@;
    let mut out: Vec<TransactionId> = Vec::new();
    let mut i: usize = 0;
    while i < v.len()
        invariant
            0 <= i <= v@.len(),
            v@ == pre,
            transaction_id_set(pre),
            transaction_id_set(out@),
            forall|id2: TransactionId|
                #[trigger] out@.contains(id2) == (pre.take(i as int).contains(id2) && id2 != id),
        decreases v@.len() - i,
    {
        let candidate = v[i];
        if candidate != id {
            proof {
                assert(!out@.contains(candidate)) by {
                    if pre.take(i as int).contains(candidate) {
                        let k = choose|k: int|
                            0 <= k < i && pre.take(i as int)[k] == candidate;
                        assert(pre[k] == pre[i as int]);
                    }
                }
            }
            out.push(candidate);
        }
        proof {
            assert(pre.take(i + 1) == pre.take(i as int).push(pre[i as int]));
        }
        i = i + 1;
    }
    proof {
        assert(pre.take(pre.len() as int) =~= pre);
    }
    *v = out;
}

/// Bisects a sorted address-book half for an exact key index.
fn find_address_position(addrs: &Vec<AccountAddress>, key_index: u32) -> (r: Option<usize>)
    requires
        addresses_sorted(addrs@),
    ensures
        match r {
            Some(i) => 0 <= i < addrs@.len() && addrs@[i as int].key_index == key_index,
            None => forall|j: int| 0 <= j < addrs@.len() ==> addrs@[j].key_index != key_index,
        },
{
    let mut lo: usize = 0;
    let mut hi: usize = addrs.len();
    while lo < hi
        invariant
            0 <= lo <= hi <= addrs@.len(),
            addresses_sorted(addrs@),
            forall|j: int| 0 <= j < lo ==> addrs@[j].key_index < key_index,
            forall|j: int| hi <= j < addrs@.len() ==> addrs@[j].key_index > key_index,
        decreases hi - lo,
    {
        let mid = lo + (hi - lo) / 2;
        let entry_key = addrs[mid].key_index;
        if entry_key == key_index {
            return Some(mid);
        } else if entry_key < key_index {
            lo = mid + 1;
        } else {
            hi = mid;
        }
    }
    None
}

/// Whether the synchronized addresses name this key on this half of the
/// address book.
pub open spec fn synced_has(
    synced: Seq<AddressWithBalance>,
    key_index: u32,
    internal: bool,
) -> bool {
    exists|k: int|
        0 <= k < synced.len() && synced[k].key_index == key_index && synced[k].internal == internal
}

/// Whether this half of the address book holds the key.
pub open spec fn book_has_key(book: Seq<AccountAddress>, key_index: u32) -> bool {
    exists|j: int| 0 <= j < book.len() && book[j].key_index == key_index
}

/// Growing the synchronized prefix by one entry names exactly one more
/// key.
proof fn lemma_synced_has_step(
    synced: Seq<AddressWithBalance>,
    k: int,
    key_index: u32,
    internal: bool,
)
    requires
        0 <= k < synced.len(),
    ensures
        synced_has(synced.take(k + 1), key_index, internal) == (synced_has(
            synced.take(k),
            key_index,
            internal,
        ) || (synced[k].key_index == key_index && synced[k].internal == internal)),
{
    let shorter = synced.take(k);
    let longer = synced.take(k + 1);
    assert(longer == shorter.push(synced[k]));
    if synced_has(longer, key_index, internal) {
        let j = choose|j: int|
            0 <= j < longer.len() && longer[j].key_index == key_index && longer[j].internal
                == internal;
        if j < k {
            assert(shorter[j] == longer[j]);
            assert(synced_has(shorter, key_index, internal));
        } else {
            assert(longer[j] == synced[k]);
        }
    }
    if synced_has(shorter, key_index, internal) {
        let j = choose|j: int|
            0 <= j < shorter.len() && shorter[j].key_index == key_index && shorter[j].internal
                == internal;
        assert(longer[j] == shorter[j]);
        assert(synced_has(longer, key_index, internal));
    }
    if synced[k].key_index == key_index && synced[k].internal == internal {
        assert(longer[k] == synced[k]);
        assert(synced_has(longer, key_index, internal));
    }
}

/// Marks every synchronized address used in its half of the address book.
///
/// Fails, leaving both halves untouched, exactly when some synchronized
/// address has no entry with its key index on its half: the address book
/// is append-only, so a missing entry is an invariant violation. On
/// success the halves keep their entries in place, with `used` set on
/// precisely the named keys.
fn mark_synced_addresses_used(
    internal_book: &mut Vec<AccountAddress>,
    public_book: &mut Vec<AccountAddress>,
    synced: &Vec<AddressWithBalance>,
) -> (r: Result<(), ClientError>)
    requires
        addresses_sorted(old(internal_book)@),
        addresses_sorted(old(public_book)@),
    ensures
        match r {
            Ok(()) => {
                &&& final(internal_book)@.len() == old(internal_book)@.len()
                &&& final(public_book)@.len() == old(public_book)@.len()
                &&& forall|j: int|
                    0 <= j < old(internal_book)@.len() ==> #[trigger] final(internal_book)@[j]
                        == (AccountAddress {
                        used: old(internal_book)@[j].used || synced_has(
                            synced@,
                            old(internal_book)@[j].key_index,
                            true,
                        ),
                        ..old(internal_book)@[j]
                    })
                &&& forall|j: int|
                    0 <= j < old(public_book)@.len() ==> #[trigger] final(public_book)@[j]
                        == (AccountAddress {
                        used: old(public_book)@[j].used || synced_has(
                            synced@,
                            old(public_book)@[j].key_index,
                            false,
                        ),
                        ..old(public_book)@[j]
                    })
                &&& forall|k: int|
                    0 <= k < synced@.len() ==> book_has_key(
                        if synced@[k].internal {
                            old(internal_book)@
                        } else {
                            old(public_book)@
                        },
                        synced@[k].key_index,
                    )
            },
            Err(e) => {
                &&& e == ClientError::InputAddressNotFound
                &&& final(internal_book)@ == old(internal_book)@
                &&& final(public_book)@ == old(public_book)@
                &&& exists|k: int|
                    0 <= k < synced@.len() && !book_has_key(
                        if synced@[k].internal {
                            old(internal_book)@
                        } else {
                            old(public_book)@
                        },
                        #[trigger] synced@[k].key_index,
                    )
            },
        },
{
    let ghost pre_internal = internal_book@;
    let ghost pre_public = public_book@;
    let mut positions: Vec<usize> = Vec::new();
    let mut k: usize = 0;
    while k < synced.len()
        invariant
            0 <= k <= synced@.len(),
            internal_book@ == pre_internal,
            public_book@ == pre_public,
            addresses_sorted(pre_internal),
            addresses_sorted(pre_public),
            positions@.len() == k,
            forall|k2: int|
                0 <= k2 < k ==> {
                    let book = if synced@[k2].internal {
                        pre_internal
                    } else {
                        pre_public
                    };
                    &&& 0 <= #[trigger] positions@[k2] < book.len()
                    &&& book[positions@[k2] as int].key_index == synced@[k2].key_index
                },
        decreases synced@.len() - k,
    {
        let entry = synced[k];
        let found = if entry.internal {
            find_address_position(internal_book, entry.key_index)
        } else {
            find_address_position(public_book, entry.key_index)
        };
        match found {
            Some(p) => {
                positions.push(p);
            },
            None => {
                return Err(ClientError::InputAddressNotFound);
            },
        }
        k = k + 1;
    }
    let mut k: usize = 0;
    while k < synced.len()
        invariant
            0 <= k <= synced@.len(),
            positions@.len() == synced@.len(),
            addresses_sorted(pre_internal),
            addresses_sorted(pre_public),
            internal_book@.len() == pre_internal.len(),
            public_book@.len() == pre_public.len(),
            forall|k2: int|
                0 <= k2 < synced@.len() ==> {
                    let book = if synced@[k2].internal {
                        pre_internal
                    } else {
                        pre_public
                    };
                    &&& 0 <= #[trigger] positions@[k2] < book.len()
                    &&& book[positions@[k2] as int].key_index == synced@[k2].key_index
                },
            forall|j: int|
                0 <= j < pre_internal.len() ==> #[trigger] internal_book@[j] == (AccountAddress {
                    used: pre_internal[j].used || synced_has(
                        synced@.take(k as int),
                        pre_internal[j].key_index,
                        true,
                    ),
                    ..pre_internal[j]
                }),
            forall|j: int|
                0 <= j < pre_public.len() ==> #[trigger] public_book@[j] == (AccountAddress {
                    used: pre_public[j].used || synced_has(
                        synced@.take(k as int),
                        pre_public[j].key_index,
                        false,
                    ),
                    ..pre_public[j]
                }),
        decreases synced@.len() - k,
    {
        let entry = synced[k];
        let p = positions[k];
        let ghost mid_internal = internal_book@;
        let ghost mid_public = public_book@;
        if entry.internal {
            let current = internal_book[p];
            internal_book.set(
                p,
                AccountAddress {
                    address: current.address,
                    key_index: current.key_index,
                    internal: current.internal,
                    used: true,
                },
            );
        } else {
            let current = public_book[p];
            public_book.set(
                p,
                AccountAddress {
                    address: current.address,
                    key_index: current.key_index,
                    internal: current.internal,
                    used: true,
                },
            );
        }
        proof {
            assert forall|j: int| 0 <= j < pre_internal.len() implies #[trigger] internal_book@[j]
                == (AccountAddress {
                used: pre_internal[j].used || synced_has(
                    synced@.take(k + 1),
                    pre_internal[j].key_index,
                    true,
                ),
                ..pre_internal[j]
            }) by {
                lemma_synced_has_step(synced@, k as int, pre_internal[j].key_index, true);
                if entry.internal && j == p {
                    assert(internal_book@[j].used == true);
                    assert(synced@[k as int].key_index == pre_internal[j].key_index);
                } else if entry.internal && synced@[k as int].key_index == pre_internal[j].key_index
                    && synced@[k as int].internal {
                    assert(pre_internal[p as int].key_index == synced@[k as int].key_index);
                    assert(j == p);
                }
            }
            assert forall|j: int| 0 <= j < pre_public.len() implies #[trigger] public_book@[j]
                == (AccountAddress {
                used: pre_public[j].used || synced_has(
                    synced@.take(k + 1),
                    pre_public[j].key_index,
                    false,
                ),
                ..pre_public[j]
            }) by {
                lemma_synced_has_step(synced@, k as int, pre_public[j].key_index, false);
                if !entry.internal && j == p {
                    assert(public_book@[j].used == true);
                    assert(synced@[k as int].key_index == pre_public[j].key_index);
                } else if !entry.internal && synced@[k as int].key_index == pre_public[j].key_index
                    && !synced@[k as int].internal {
                    assert(pre_public[p as int].key_index == synced@[k as int].key_index);
                    assert(j == p);
                }
            }
        }
        k = k + 1;
    }
    proof {
        assert(synced@.take(synced@.len() as int) =~= synced@);
        assert forall|k2: int| 0 <= k2 < synced@.len() implies book_has_key(
            if synced@[k2].internal {
                pre_internal
            } else {
                pre_public
            },
            synced@[k2].key_index,
        ) by {
            let book = if synced@[k2].internal {
                pre_internal
            } else {
                pre_public
            };
            assert(book[positions@[k2] as int].key_index == synced@[k2].key_index);
        }
    }
    Ok(())
}

/// The last observation a pass makes for this output id; later entries
/// overwrite earlier ones.
pub open spec fn latest_observation(s: Seq<OutputData>, id: OutputId) -> OutputData
    recommends
        has_output(s, id),
    decreases s.len(),
{
    if s.len() == 0 {
        OutputData { output_id: id, amount: 0, address: Address::Ed25519 { key_hash: 0 }, is_spent: false }
    } else if s.last().output_id == id {
        s.last()
    } else {
        latest_observation(s.drop_last(), id)
    }
}

/// The last update a pass carries for this transaction id.
pub open spec fn latest_update(s: Seq<TransactionData>, id: TransactionId) -> TransactionData
    recommends
        has_transaction(s, id),
    decreases s.len(),
{
    if s.len() == 0 {
        TransactionData { transaction_id: id, inclusion_state: InclusionState::Pending }
    } else if s.last().transaction_id == id {
        s.last()
    } else {
        latest_update(s.drop_last(), id)
    }
}

/// Whether some update for this transaction reports a final state. Any
/// such update removes the transaction from the pending set, even when a
/// later update in the same pass reports it pending again.
pub open spec fn finalizing_update(s: Seq<TransactionData>, id: TransactionId) -> bool {
    exists|k: int|
        0 <= k < s.len() && s[k].transaction_id == id && (s[k].inclusion_state is Confirmed
            || s[k].inclusion_state is Conflicting)
}

/// Growing the prefix of observations by one entry names exactly one
/// more output id.
proof fn lemma_has_output_take_step(s: Seq<OutputData>, k: int, id: OutputId)
    requires
        0 <= k < s.len(),
    ensures
        has_output(s.take(k + 1), id) == (has_output(s.take(k), id) || s[k].output_id == id),
{
    let shorter = s.take(k);
    let longer = s.take(k + 1);
    assert(longer == shorter.push(s[k]));
    if has_output(longer, id) {
        let j = choose|j: int| 0 <= j < longer.len() && longer[j].output_id == id;
        if j < k {
            assert(shorter[j] == longer[j]);
            assert(has_output(shorter, id));
        } else {
            assert(longer[j] == s[k]);
        }
    }
    if has_output(shorter, id) {
        let j = choose|j: int| 0 <= j < shorter.len() && shorter[j].output_id == id;
        assert(longer[j] == shorter[j]);
        assert(has_output(longer, id));
    }
    if s[k].output_id == id {
        assert(longer[k] == s[k]);
        assert(has_output(longer, id));
    }
}

/// Growing the prefix of updates by one entry names exactly one more
/// transaction id, and carries one more chance of a finalizing update.
proof fn lemma_updates_take_step(s: Seq<TransactionData>, k: int, id: TransactionId)
    requires
        0 <= k < s.len(),
    ensures
        has_transaction(s.take(k + 1), id) == (has_transaction(s.take(k), id)
            || s[k].transaction_id == id),
        finalizing_update(s.take(k + 1), id) == (finalizing_update(s.take(k), id)
            || (s[k].transaction_id == id && (s[k].inclusion_state is Confirmed
                || s[k].inclusion_state is Conflicting))),
{
    let shorter = s.take(k);
    let longer = s.take(k + 1);
    assert(longer == shorter.push(s[k]));
    assert(forall|j: int| 0 <= j < k ==> longer[j] == shorter[j]);
    assert(longer[k] == s[k]);
    if has_transaction(longer, id) {
        let j = choose|j: int| 0 <= j < longer.len() && longer[j].transaction_id == id;
        if j < k {
            assert(has_transaction(shorter, id));
        }
    }
    if has_transaction(shorter, id) {
        let j = choose|j: int| 0 <= j < shorter.len() && shorter[j].transaction_id == id;
        assert(longer[j] == shorter[j]);
        assert(has_transaction(longer, id));
    }
    if s[k].transaction_id == id {
        assert(has_transaction(longer, id));
    }
    if finalizing_update(longer, id) {
        let j = choose|j: int|
            0 <= j < longer.len() && longer[j].transaction_id == id
                && (longer[j].inclusion_state is Confirmed
                || longer[j].inclusion_state is Conflicting);
        if j < k {
            assert(finalizing_update(shorter, id));
        }
    }
    if finalizing_update(shorter, id) {
        let j = choose|j: int|
            0 <= j < shorter.len() && shorter[j].transaction_id == id
                && (shorter[j].inclusion_state is Confirmed
                || shorter[j].inclusion_state is Conflicting);
        assert(longer[j] == shorter[j]);
        assert(finalizing_update(longer, id));
    }
    if s[k].transaction_id == id && (s[k].inclusion_state is Confirmed
        || s[k].inclusion_state is Conflicting) {
        assert(finalizing_update(longer, id));
    }
}

/// Folds freshly observed outputs into the stores: every observation is
/// recorded, and the unspent store tracks exactly the unspent ones.
fn apply_new_outputs(
    outputs: &mut Vec<OutputData>,
    unspent: &mut Vec<OutputData>,
    new_outputs: &Vec<OutputData>,
)
    requires
        output_ids_unique(old(outputs)@),
        output_ids_unique(old(unspent)@),
        unspent_coherent(old(outputs)@, old(unspent)@),
    ensures
        output_ids_unique(final(outputs)@),
        output_ids_unique(final(unspent)@),
        unspent_coherent(final(outputs)@, final(unspent)@),
        forall|id: OutputId|
            has_output(old(outputs)@, id) ==> #[trigger] has_output(final(outputs)@, id),
        forall|k: int|
            0 <= k < new_outputs@.len() ==> #[trigger] has_output(
                final(outputs)@,
                new_outputs@[k].output_id,
            ),
        forall|id: OutputId|
            has_output(new_outputs@, id) ==> #[trigger] output_at(final(outputs)@, id)
                == latest_observation(new_outputs@, id),
        forall|id: OutputId|
            !has_output(new_outputs@, id) ==> #[trigger] has_output(final(outputs)@, id)
                == has_output(old(outputs)@, id) && (has_output(old(outputs)@, id) ==> output_at(
                final(outputs)@,
                id,
            ) == output_at(old(outputs)@, id)),
        forall|id: OutputId|
            !has_output(new_outputs@, id) ==> #[trigger] has_output(final(unspent)@, id)
                == has_output(old(unspent)@, id) && (has_output(old(unspent)@, id) ==> output_at(
                final(unspent)@,
                id,
            ) == output_at(old(unspent)@, id)),
{
    let ghost pre_outputs = outputs@;
    let ghost pre_unspent = unspent@;
    let mut k: usize = 0;
    while k < new_outputs.len()
        invariant
            0 <= k <= new_outputs@.len(),
            output_ids_unique(outputs@),
            output_ids_unique(unspent@),
            unspent_coherent(outputs@, unspent@),
            forall|id: OutputId|
                has_output(pre_outputs, id) ==> #[trigger] has_output(outputs@, id),
            forall|k2: int|
                0 <= k2 < k ==> #[trigger] has_output(outputs@, new_outputs@[k2].output_id),
            forall|id: OutputId|
                has_output(new_outputs@.take(k as int), id) ==> #[trigger] output_at(outputs@, id)
                    == latest_observation(new_outputs@.take(k as int), id),
            forall|id: OutputId|
                !has_output(new_outputs@, id) ==> #[trigger] has_output(outputs@, id)
                    == has_output(pre_outputs, id) && (has_output(pre_outputs, id) ==> output_at(
                    outputs@,
                    id,
                ) == output_at(pre_outputs, id)),
            forall|id: OutputId|
                !has_output(new_outputs@, id) ==> #[trigger] has_output(unspent@, id)
                    == has_output(pre_unspent, id) && (has_output(pre_unspent, id) ==> output_at(
                    unspent@,
                    id,
                ) == output_at(pre_unspent, id)),
        decreases new_outputs@.len() - k,
    {
        let observed = new_outputs[k];
        upsert_output(outputs, observed);
        if !observed.is_spent {
            upsert_output(unspent, observed);
        } else {
            remove_output(unspent, observed.output_id);
        }
        proof {
            assert(has_output(new_outputs@, observed.output_id));
            assert(new_outputs@.take(k + 1).drop_last() =~= new_outputs@.take(k as int));
            assert(new_outputs@.take(k + 1).last() == observed);
            assert forall|id: OutputId|
                has_output(new_outputs@.take(k + 1), id) implies #[trigger] output_at(outputs@, id)
                == latest_observation(new_outputs@.take(k + 1), id) by {
                lemma_has_output_take_step(new_outputs@, k as int, id);
                if id != observed.output_id {
                    assert(has_output(new_outputs@.take(k as int), id));
                    assert(latest_observation(new_outputs@.take(k + 1), id) == latest_observation(
                        new_outputs@.take(k as int),
                        id,
                    ));
                }
            }
        }
        k = k + 1;
    }
    proof {
        assert(new_outputs@.take(new_outputs@.len() as int) =~= new_outputs@);
    }
}

/// Folds the updated transactions in: each one is recorded under its id,
/// and those that reached a final state leave the pending set.
fn apply_transaction_updates(
    transactions: &mut Vec<TransactionData>,
    pending: &mut Vec<TransactionId>,
    updated: &Vec<TransactionData>,
)
    requires
        transaction_ids_unique(old(transactions)@),
        transaction_id_set(old(pending)@),
        pending_coherent(old(transactions)@, old(pending)@),
    ensures
        transaction_ids_unique(final(transactions)@),
        transaction_id_set(final(pending)@),
        pending_coherent(final(transactions)@, final(pending)@),
        forall|k: int|
            0 <= k < updated@.len() ==> #[trigger] has_transaction(
                final(transactions)@,
                updated@[k].transaction_id,
            ),
        forall|id: TransactionId|
            has_transaction(updated@, id) ==> #[trigger] transaction_at(final(transactions)@, id)
                == latest_update(updated@, id),
        forall|t: TransactionId|
            #[trigger] final(pending)@.contains(t) == (old(pending)@.contains(t)
                && !finalizing_update(updated@, t)),
        forall|id: TransactionId|
            !has_transaction(updated@, id) ==> #[trigger] has_transaction(final(transactions)@, id)
                == has_transaction(old(transactions)@, id) && (has_transaction(
                old(transactions)@,
                id,
            ) ==> transaction_at(final(transactions)@, id) == transaction_at(
                old(transactions)@,
                id,
            )),
{
    let ghost pre_transactions = transactions@;
    let ghost pre_pending = pending@;
    let mut k: usize = 0;
    while k < updated.len()
        invariant
            0 <= k <= updated@.len(),
            transaction_ids_unique(transactions@),
            transaction_id_set(pending@),
            pending_coherent(transactions@, pending@),
            forall|k2: int|
                0 <= k2 < k ==> #[trigger] has_transaction(
                    transactions@,
                    updated@[k2].transaction_id,
                ),
            forall|id: TransactionId|
                has_transaction(updated@.take(k as int), id) ==> #[trigger] transaction_at(
                    transactions@,
                    id,
                ) == latest_update(updated@.take(k as int), id),
            forall|t: TransactionId|
                #[trigger] pending@.contains(t) == (pre_pending.contains(t) && !finalizing_update(
                    updated@.take(k as int),
                    t,
                )),
            forall|id: TransactionId|
                !has_transaction(updated@, id) ==> #[trigger] has_transaction(transactions@, id)
                    == has_transaction(pre_transactions, id) && (has_transaction(
                    pre_transactions,
                    id,
                ) ==> transaction_at(transactions@, id) == transaction_at(pre_transactions, id)),
        decreases updated@.len() - k,
    {
        let update = updated[k];
        let is_final = match update.inclusion_state {
            InclusionState::Confirmed => true,
            InclusionState::Conflicting => true,
            InclusionState::Pending => false,
        };
        if is_final {
            remove_transaction_id(pending, update.transaction_id);
        }
        upsert_transaction(transactions, update);
        proof {
            assert(has_transaction(updated@, update.transaction_id));
            assert(updated@.take(k + 1).drop_last() =~= updated@.take(k as int));
            assert(updated@.take(k + 1).last() == update);
            assert forall|id: TransactionId|
                has_transaction(updated@.take(k + 1), id) implies #[trigger] transaction_at(
                transactions@,
                id,
            ) == latest_update(updated@.take(k + 1), id) by {
                lemma_updates_take_step(updated@, k as int, id);
                if id != update.transaction_id {
                    assert(has_transaction(updated@.take(k as int), id));
                    assert(latest_update(updated@.take(k + 1), id) == latest_update(
                        updated@.take(k as int),
                        id,
                    ));
                }
            }
            assert forall|t: TransactionId| #[trigger] pending@.contains(t) == (
            pre_pending.contains(t) && !finalizing_update(updated@.take(k + 1), t)) by {
                lemma_updates_take_step(updated@, k as int, t);
            }
            assert forall|k2: int|
                0 <= k2 < pending@.len() implies {
                let id = #[trigger] pending@[k2];
                &&& has_transaction(transactions@, id)
                &&& !(transaction_at(transactions@, id).inclusion_state is Confirmed)
                &&& !(transaction_at(transactions@, id).inclusion_state is Conflicting)
            } by {
                let id = pending@[k2];
                assert(pending@.contains(id));
                if id == update.transaction_id {
                    assert(!is_final);
                }
            }
        }
        k = k + 1;
    }
    proof {
        assert(updated@.take(updated@.len() as int) =~= updated@);
    }
}

/// Marks each listed output spent where it is stored, releases it from
/// the in-flight reservation, and drops it from the unspent store.
fn apply_spent_ids(
    outputs: &mut Vec<OutputData>,
    unspent: &mut Vec<OutputData>,
    locked: &mut Vec<OutputId>,
    ids: &Vec<OutputId>,
)
    requires
        output_ids_unique(old(outputs)@),
        output_ids_unique(old(unspent)@),
        output_id_set(old(locked)@),
        unspent_coherent(old(outputs)@, old(unspent)@),
    ensures
        output_ids_unique(final(outputs)@),
        output_ids_unique(final(unspent)@),
        output_id_set(final(locked)@),
        unspent_coherent(final(outputs)@, final(unspent)@),
        forall|id: OutputId| #[trigger] has_output(final(outputs)@, id) == has_output(old(outputs)@, id),
        forall|k: int|
            0 <= k < ids@.len() ==> {
                let id = #[trigger] ids@[k];
                &&& (has_output(old(outputs)@, id) ==> output_at(final(outputs)@, id)
                    == (OutputData { is_spent: true, ..output_at(old(outputs)@, id) }))
                &&& !final(locked)@.contains(id)
                &&& !has_output(final(unspent)@, id)
            },
        forall|id: OutputId|
            !ids@.contains(id) && has_output(old(outputs)@, id) ==> #[trigger] output_at(
                final(outputs)@,
                id,
            ) == output_at(old(outputs)@, id),
        forall|id: OutputId|
            !ids@.contains(id) ==> #[trigger] final(locked)@.contains(id) == old(locked)@.contains(
                id,
            ),
        forall|id: OutputId| #[trigger] final(locked)@.contains(id) ==> old(locked)@.contains(id),
        forall|id: OutputId|
            !ids@.contains(id) ==> #[trigger] has_output(final(unspent)@, id) == has_output(
                old(unspent)@,
                id,
            ) && (has_output(old(unspent)@, id) ==> output_at(final(unspent)@, id) == output_at(
                old(unspent)@,
                id,
            )),
{
    let ghost pre_outputs = outputs@;
    let ghost pre_unspent = unspent@;
    let ghost pre_locked = locked@;
    let mut k: usize = 0;
    while k < ids.len()
        invariant
            0 <= k <= ids@.len(),
            output_ids_unique(outputs@),
            output_ids_unique(unspent@),
            output_id_set(locked@),
            unspent_coherent(outputs@, unspent@),
            forall|id: OutputId| #[trigger] has_output(outputs@, id) == has_output(pre_outputs, id),
            forall|id: OutputId|
                has_output(pre_outputs, id) ==> (#[trigger] output_at(outputs@, id) == output_at(
                    pre_outputs,
                    id,
                ) || output_at(outputs@, id) == (OutputData {
                    is_spent: true,
                    ..output_at(pre_outputs, id)
                })),
            forall|k2: int|
                0 <= k2 < k ==> {
                    let id = #[trigger] ids@[k2];
                    &&& (has_output(pre_outputs, id) ==> output_at(outputs@, id) == (OutputData {
                        is_spent: true,
                        ..output_at(pre_outputs, id)
                    }))
                    &&& !locked@.contains(id)
                    &&& !has_output(unspent@, id)
                },
            forall|id: OutputId|
                !ids@.contains(id) && has_output(pre_outputs, id) ==> #[trigger] output_at(
                    outputs@,
                    id,
                ) == output_at(pre_outputs, id),
            forall|id: OutputId|
                !ids@.contains(id) ==> #[trigger] locked@.contains(id) == pre_locked.contains(id),
            forall|id: OutputId| #[trigger] locked@.contains(id) ==> pre_locked.contains(id),
            forall|id: OutputId|
                !ids@.contains(id) ==> #[trigger] has_output(unspent@, id) == has_output(
                    pre_unspent,
                    id,
                ) && (has_output(pre_unspent, id) ==> output_at(unspent@, id) == output_at(
                    pre_unspent,
                    id,
                )),
        decreases ids@.len() - k,
    {
        let id = ids[k];
        mark_output_spent(outputs, id);
        remove_output_id(locked, id);
        remove_output(unspent, id);
        proof {
            assert(ids@.contains(ids@[k as int]));
            assert forall|k2: int| 0 <= k2 < k + 1 implies {
                let id2 = #[trigger] ids@[k2];
                &&& (has_output(pre_outputs, id2) ==> output_at(outputs@, id2) == (OutputData {
                    is_spent: true,
                    ..output_at(pre_outputs, id2)
                }))
                &&& !locked@.contains(id2)
                &&& !has_output(unspent@, id2)
            } by {
                let id2 = ids@[k2];
                if id2 == id {
                    if has_output(pre_outputs, id2) {
                        assert(output_at(outputs@, id2) == (OutputData {
                            is_spent: true,
                            ..output_at(pre_outputs, id2)
                        }));
                    }
                }
            }
        }
        k = k + 1;
    }
}

/// The balance entries that survive a synchronization: those below the
/// chosen start index, in their stored order.
pub open spec fn retained_below(s: Seq<AddressWithBalance>, start: u32) -> Seq<AddressWithBalance> {
    s.filter(|a: AddressWithBalance| a.key_index < start)
}

/// Drops every balance entry at or above the start index, keeping the
/// order of the rest.
fn retain_addresses_below(v: &mut Vec<AddressWithBalance>, start: u32)
    ensures
        final(v)@ == retained_below(old(v)@, start),
{
    let ghost pre = v@;
    let mut out: Vec<AddressWithBalance> = Vec::new();
    let mut i: usize = 0;
    while i < v.len()
        invariant
            0 <= i <= v@.len(),
            v@ == pre,
            out@ == retained_below(pre.take(i as int), start),
        decreases v@.len() - i,
    {
        let entry = v[i];
        proof {
            assert(pre.take(i + 1) == pre.take(i as int).push(pre[i as int]));
        }
        if entry.key_index < start {
            out.push(entry);
        }
        i = i + 1;
    }
    proof {
        assert(pre.take(pre.len() as int) =~= pre);
    }
    *v = out;
}

/// Commits one synchronization pass into the account.
///
/// The pass runs in the order the data was gathered: the synchronized
/// addresses are marked used, the per-address balances are replaced above
/// the start index, the observed outputs are folded into the stores, the
/// updated transactions settle the pending set, and finally the outputs
/// seen spent and the ones to release are marked spent, released from the
/// reservation, and dropped from the unspent store. A missing address-book
/// entry aborts the commit before anything is written. The commit
/// re-establishes the account invariant, in particular that the unspent
/// store equals the unspent part of the output store and that nothing
/// confirmed or conflicting stays pending.
pub fn update_account(
    state: &mut AccountState,
    synced_addresses: Vec<AddressWithBalance>,
    new_outputs: Vec<OutputData>,
    transaction_sync_result: TransactionSyncResult,
    options: &SyncOptions,
) -> (r: Result<(), ClientError>)
    requires
        old(state).wf(),
    ensures
        final(state).wf(),
        final(state).last_synced == old(state).last_synced,
        match r {
            Ok(()) => {
                let spent = transaction_sync_result.spent_output_ids@;
                let unlock = transaction_sync_result.output_ids_to_unlock@;
                let updated = transaction_sync_result.updated_transactions@;
                // Every synchronized address had its entry, now marked used.
                &&& forall|k: int|
                    0 <= k < synced_addresses@.len() ==> book_has_key(
                        if synced_addresses@[k].internal {
                            old(state).internal_addresses@
                        } else {
                            old(state).public_addresses@
                        },
                        #[trigger] synced_addresses@[k].key_index,
                    )
                &&& final(state).internal_addresses@.len() == old(state).internal_addresses@.len()
                &&& final(state).public_addresses@.len() == old(state).public_addresses@.len()
                &&& forall|j: int|
                    0 <= j < old(state).internal_addresses@.len()
                        ==> #[trigger] final(state).internal_addresses@[j] == (AccountAddress {
                        used: old(state).internal_addresses@[j].used || synced_has(
                            synced_addresses@,
                            old(state).internal_addresses@[j].key_index,
                            true,
                        ),
                        ..old(state).internal_addresses@[j]
                    })
                &&& forall|j: int|
                    0 <= j < old(state).public_addresses@.len()
                        ==> #[trigger] final(state).public_addresses@[j] == (AccountAddress {
                        used: old(state).public_addresses@[j].used || synced_has(
                            synced_addresses@,
                            old(state).public_addresses@[j].key_index,
                            false,
                        ),
                        ..old(state).public_addresses@[j]
                    })
                // Balances: the old entries below the start index, then the fresh ones.
                &&& final(state).addresses_with_balance@ == retained_below(
                    old(state).addresses_with_balance@,
                    options.address_start_index,
                ) + synced_addresses@
                // Outputs only accumulate, and every observation is stored.
                &&& forall|id: OutputId|
                    has_output(old(state).outputs@, id) ==> #[trigger] has_output(
                        final(state).outputs@,
                        id,
                    )
                &&& forall|k: int|
                    0 <= k < new_outputs@.len() ==> #[trigger] has_output(
                        final(state).outputs@,
                        new_outputs@[k].output_id,
                    )
                // The stored entry for each observed id is the last
                // observation, spent-marked when the same pass lists it.
                &&& forall|id: OutputId|
                    has_output(new_outputs@, id) ==> #[trigger] output_at(
                        final(state).outputs@,
                        id,
                    ) == (if spent.contains(id) || unlock.contains(id) {
                        (OutputData { is_spent: true, ..latest_observation(new_outputs@, id) })
                    } else {
                        latest_observation(new_outputs@, id)
                    })
                // Outputs the pass does not name keep their stored values,
                // in the output store and in the unspent store alike.
                &&& forall|id: OutputId|
                    !has_output(new_outputs@, id) && !spent.contains(id) && !unlock.contains(id)
                        ==> {
                        &&& #[trigger] has_output(final(state).outputs@, id) == has_output(
                            old(state).outputs@,
                            id,
                        )
                        &&& has_output(old(state).outputs@, id) ==> output_at(
                            final(state).outputs@,
                            id,
                        ) == output_at(old(state).outputs@, id)
                        &&& has_output(final(state).unspent_outputs@, id) == has_output(
                            old(state).unspent_outputs@,
                            id,
                        )
                        &&& has_output(old(state).unspent_outputs@, id) ==> output_at(
                            final(state).unspent_outputs@,
                            id,
                        ) == output_at(old(state).unspent_outputs@, id)
                    }
                // A stored spent output stays spent unless the pass itself
                // observes the output unspent again.
                &&& forall|id: OutputId|
                    has_output(old(state).outputs@, id) && output_at(
                        old(state).outputs@,
                        id,
                    ).is_spent && (has_output(new_outputs@, id) ==> latest_observation(
                        new_outputs@,
                        id,
                    ).is_spent) ==> #[trigger] output_at(final(state).outputs@, id).is_spent
                // Every transaction update is stored; final states leave the pending set.
                &&& forall|k: int|
                    0 <= k < updated.len() ==> #[trigger] has_transaction(
                        final(state).transactions@,
                        updated[k].transaction_id,
                    )
                &&& forall|id: TransactionId|
                    has_transaction(updated, id) ==> #[trigger] transaction_at(
                        final(state).transactions@,
                        id,
                    ) == latest_update(updated, id)
                &&& forall|id: TransactionId|
                    !has_transaction(updated, id) ==> {
                        &&& #[trigger] has_transaction(final(state).transactions@, id)
                            == has_transaction(old(state).transactions@, id)
                        &&& has_transaction(old(state).transactions@, id) ==> transaction_at(
                            final(state).transactions@,
                            id,
                        ) == transaction_at(old(state).transactions@, id)
                    }
                // A transaction stays pending exactly until some update of
                // the pass reports it confirmed or conflicting.
                &&& forall|t: TransactionId|
                    #[trigger] final(state).pending_transactions@.contains(t)
                        == (old(state).pending_transactions@.contains(t) && !finalizing_update(
                        updated,
                        t,
                    ))
                // Outputs seen spent or to release: marked spent where stored,
                // released, and gone from the unspent store.
                &&& forall|k: int|
                    0 <= k < spent.len() ==> {
                        let id = #[trigger] spent[k];
                        &&& (has_output(old(state).outputs@, id) ==> output_at(
                            final(state).outputs@,
                            id,
                        ).is_spent)
                        &&& !final(state).locked_outputs@.contains(id)
                        &&& !has_output(final(state).unspent_outputs@, id)
                    }
                &&& forall|k: int|
                    0 <= k < unlock.len() ==> {
                        let id = #[trigger] unlock[k];
                        &&& (has_output(old(state).outputs@, id) ==> output_at(
                            final(state).outputs@,
                            id,
                        ).is_spent)
                        &&& !final(state).locked_outputs@.contains(id)
                        &&& !has_output(final(state).unspent_outputs@, id)
                    }
                // The reservation only shrinks, and exactly the listed
                // outputs leave it.
                &&& forall|id: OutputId|
                    #[trigger] final(state).locked_outputs@.contains(id)
                        ==> old(state).locked_outputs@.contains(id)
                &&& forall|id: OutputId|
                    !spent.contains(id) && !unlock.contains(id)
                        ==> #[trigger] final(state).locked_outputs@.contains(id)
                        == old(state).locked_outputs@.contains(id)
                // When every reserved output was unspent before, and the
                // pass lists each reserved output it observed spent, the
                // reservation stays within the unspent store.
                &&& ((forall|id: OutputId|
                    #[trigger] old(state).locked_outputs@.contains(id) ==> has_output(
                        old(state).unspent_outputs@,
                        id,
                    )) && (forall|id: OutputId|
                    old(state).locked_outputs@.contains(id) && has_output(new_outputs@, id)
                        && #[trigger] latest_observation(new_outputs@, id).is_spent
                        ==> spent.contains(id) || unlock.contains(id))) ==> (forall|id: OutputId|
                    #[trigger] final(state).locked_outputs@.contains(id) ==> has_output(
                        final(state).unspent_outputs@,
                        id,
                    ))
            },
            Err(e) => {
                &&& e == ClientError::InputAddressNotFound
                &&& exists|k: int|
                    0 <= k < synced_addresses@.len() && !book_has_key(
                        if synced_addresses@[k].internal {
                            old(state).internal_addresses@
                        } else {
                            old(state).public_addresses@
                        },
                        #[trigger] synced_addresses@[k].key_index,
                    )
                &&& final(state).internal_addresses@ == old(state).internal_addresses@
                &&& final(state).public_addresses@ == old(state).public_addresses@
                &&& final(state).addresses_with_balance@ == old(state).addresses_with_balance@
                &&& final(state).outputs@ == old(state).outputs@
                &&& final(state).unspent_outputs@ == old(state).unspent_outputs@
                &&& final(state).locked_outputs@ == old(state).locked_outputs@
                &&& final(state).transactions@ == old(state).transactions@
                &&& final(state).pending_transactions@ == old(state).pending_transactions@
            },
        },
{
    let ghost pre = *old(state);
    match mark_synced_addresses_used(
        &mut state.internal_addresses,
        &mut state.public_addresses,
        &synced_addresses,
    ) {
        Ok(()) => {},
        Err(e) => {
            return Err(e);
        },
    }
    proof {
        assert(addresses_sorted(state.internal_addresses@)) by {
            assert forall|i: int, j: int|
                0 <= i < j < state.internal_addresses@.len() implies state.internal_addresses@[i].key_index
                < state.internal_addresses@[j].key_index by {
                assert(state.internal_addresses@[i].key_index
                    == pre.internal_addresses@[i].key_index);
                assert(state.internal_addresses@[j].key_index
                    == pre.internal_addresses@[j].key_index);
            }
        }
        assert(addresses_sorted(state.public_addresses@)) by {
            assert forall|i: int, j: int|
                0 <= i < j < state.public_addresses@.len() implies state.public_addresses@[i].key_index
                < state.public_addresses@[j].key_index by {
                assert(state.public_addresses@[i].key_index == pre.public_addresses@[i].key_index);
                assert(state.public_addresses@[j].key_index == pre.public_addresses@[j].key_index);
            }
        }
        assert(addresses_flagged(state.internal_addresses@, true)) by {
            assert forall|i: int|
                0 <= i < state.internal_addresses@.len() implies state.internal_addresses@[i].internal
                == true by {
                assert(state.internal_addresses@[i].internal
                    == pre.internal_addresses@[i].internal);
            }
        }
        assert(addresses_flagged(state.public_addresses@, false)) by {
            assert forall|i: int|
                0 <= i < state.public_addresses@.len() implies state.public_addresses@[i].internal
                == false by {
                assert(state.public_addresses@[i].internal == pre.public_addresses@[i].internal);
            }
        }
    }
    retain_addresses_below(&mut state.addresses_with_balance, options.address_start_index);
    let mut fresh = synced_addresses;
    state.addresses_with_balance.append(&mut fresh);
    apply_new_outputs(&mut state.outputs, &mut state.unspent_outputs, &new_outputs);
    let ghost after_outputs = state.outputs@;
    let ghost after_new_unspent = state.unspent_outputs@;
    apply_transaction_updates(
        &mut state.transactions,
        &mut state.pending_transactions,
        &transaction_sync_result.updated_transactions,
    );
    apply_spent_ids(
        &mut state.outputs,
        &mut state.unspent_outputs,
        &mut state.locked_outputs,
        &transaction_sync_result.spent_output_ids,
    );
    let ghost after_spent_outputs = state.outputs@;
    let ghost after_spent_locked = state.locked_outputs@;
    let ghost after_spent_unspent = state.unspent_outputs@;
    apply_spent_ids(
        &mut state.outputs,
        &mut state.unspent_outputs,
        &mut state.locked_outputs,
        &transaction_sync_result.output_ids_to_unlock,
    );
    proof {
        let spent = transaction_sync_result.spent_output_ids@;
        let unlock = transaction_sync_result.output_ids_to_unlock@;
        assert forall|k: int| 0 <= k < spent.len() implies {
            let id = #[trigger] spent[k];
            &&& (has_output(pre.outputs@, id) ==> output_at(state.outputs@, id).is_spent)
            &&& !state.locked_outputs@.contains(id)
            &&& !has_output(state.unspent_outputs@, id)
        } by {
            let id = spent[k];
            if has_output(pre.outputs@, id) {
                assert(has_output(after_outputs, id));
                assert(output_at(after_spent_outputs, id).is_spent);
                if unlock.contains(id) {
                    let k2 = choose|k2: int| 0 <= k2 < unlock.len() && unlock[k2] == id;
                    assert(output_at(state.outputs@, id) == (OutputData {
                        is_spent: true,
                        ..output_at(after_spent_outputs, id)
                    }));
                } else {
                    assert(output_at(state.outputs@, id) == output_at(after_spent_outputs, id));
                }
            }
            if unlock.contains(id) {
                let k2 = choose|k2: int| 0 <= k2 < unlock.len() && unlock[k2] == id;
            } else {
            }
        }
        // The stored entry of each observed id: the last observation,
        // spent-marked where the pass lists the id.
        assert forall|id: OutputId| has_output(new_outputs@, id) implies #[trigger] output_at(
            state.outputs@,
            id,
        ) == (if spent.contains(id) || unlock.contains(id) {
            (OutputData { is_spent: true, ..latest_observation(new_outputs@, id) })
        } else {
            latest_observation(new_outputs@, id)
        }) by {
            let k0 = choose|k0: int| 0 <= k0 < new_outputs@.len() && new_outputs@[k0].output_id
                == id;
            assert(has_output(after_outputs, new_outputs@[k0].output_id));
            assert(output_at(after_outputs, id) == latest_observation(new_outputs@, id));
            if spent.contains(id) {
                let k1 = choose|k1: int| 0 <= k1 < spent.len() && spent[k1] == id;
                assert(output_at(after_spent_outputs, id) == (OutputData {
                    is_spent: true,
                    ..output_at(after_outputs, id)
                }));
            } else {
                assert(output_at(after_spent_outputs, id) == output_at(after_outputs, id));
            }
            if unlock.contains(id) {
                let k2 = choose|k2: int| 0 <= k2 < unlock.len() && unlock[k2] == id;
                assert(has_output(after_spent_outputs, id));
                assert(output_at(state.outputs@, id) == (OutputData {
                    is_spent: true,
                    ..output_at(after_spent_outputs, id)
                }));
            } else {
                assert(output_at(state.outputs@, id) == output_at(after_spent_outputs, id));
            }
        }
        // Outputs the pass does not name keep their stored values.
        assert forall|id: OutputId|
            !has_output(new_outputs@, id) && !spent.contains(id) && !unlock.contains(id) implies {
            &&& #[trigger] has_output(state.outputs@, id) == has_output(pre.outputs@, id)
            &&& has_output(pre.outputs@, id) ==> output_at(state.outputs@, id) == output_at(
                pre.outputs@,
                id,
            )
            &&& has_output(state.unspent_outputs@, id) == has_output(pre.unspent_outputs@, id)
            &&& has_output(pre.unspent_outputs@, id) ==> output_at(state.unspent_outputs@, id)
                == output_at(pre.unspent_outputs@, id)
        } by {
            assert(has_output(after_outputs, id) == has_output(pre.outputs@, id));
            assert(has_output(after_new_unspent, id) == has_output(pre.unspent_outputs@, id));
            assert(has_output(after_spent_unspent, id) == has_output(after_new_unspent, id));
            assert(has_output(state.unspent_outputs@, id) == has_output(after_spent_unspent, id));
            if has_output(pre.outputs@, id) {
                assert(output_at(after_outputs, id) == output_at(pre.outputs@, id));
                assert(output_at(after_spent_outputs, id) == output_at(after_outputs, id));
                assert(output_at(state.outputs@, id) == output_at(after_spent_outputs, id));
            }
            if has_output(pre.unspent_outputs@, id) {
                assert(output_at(after_new_unspent, id) == output_at(pre.unspent_outputs@, id));
                assert(output_at(after_spent_unspent, id) == output_at(after_new_unspent, id));
                assert(output_at(state.unspent_outputs@, id) == output_at(
                    after_spent_unspent,
                    id,
                ));
            }
        }
        // A stored spent output stays spent unless observed unspent again.
        assert forall|id: OutputId|
            has_output(pre.outputs@, id) && output_at(pre.outputs@, id).is_spent && (has_output(
                new_outputs@,
                id,
            ) ==> latest_observation(new_outputs@, id).is_spent) implies #[trigger] output_at(
            state.outputs@,
            id,
        ).is_spent by {
            if has_output(new_outputs@, id) {
                let k0 = choose|k0: int|
                    0 <= k0 < new_outputs@.len() && new_outputs@[k0].output_id == id;
                assert(has_output(after_outputs, new_outputs@[k0].output_id));
                assert(output_at(after_outputs, id) == latest_observation(new_outputs@, id));
            } else {
                assert(has_output(after_outputs, id) == has_output(pre.outputs@, id));
                assert(output_at(after_outputs, id) == output_at(pre.outputs@, id));
            }
            assert(output_at(after_outputs, id).is_spent);
            if spent.contains(id) {
                let k1 = choose|k1: int| 0 <= k1 < spent.len() && spent[k1] == id;
                assert(output_at(after_spent_outputs, id) == (OutputData {
                    is_spent: true,
                    ..output_at(after_outputs, id)
                }));
            } else {
                assert(output_at(after_spent_outputs, id) == output_at(after_outputs, id));
            }
            assert(output_at(after_spent_outputs, id).is_spent);
            if unlock.contains(id) {
                let k2 = choose|k2: int| 0 <= k2 < unlock.len() && unlock[k2] == id;
                assert(has_output(after_spent_outputs, id));
                assert(output_at(state.outputs@, id) == (OutputData {
                    is_spent: true,
                    ..output_at(after_spent_outputs, id)
                }));
            } else {
                assert(output_at(state.outputs@, id) == output_at(after_spent_outputs, id));
            }
        }
        // The listed outputs leave the reservation; the rest stay.
        assert forall|id: OutputId|
            !spent.contains(id) && !unlock.contains(id) implies #[trigger] state.locked_outputs@.contains(
            id,
        ) == pre.locked_outputs@.contains(id) by {
            assert(after_spent_locked.contains(id) == pre.locked_outputs@.contains(id));
            assert(state.locked_outputs@.contains(id) == after_spent_locked.contains(id));
        }
        // Given the old reservation invariant and a pass that lists every
        // reserved output it observed spent, the reservation stays within
        // the unspent store.
        if (forall|id: OutputId|
            #[trigger] pre.locked_outputs@.contains(id) ==> has_output(
                pre.unspent_outputs@,
                id,
            )) && (forall|id: OutputId|
            pre.locked_outputs@.contains(id) && has_output(new_outputs@, id)
                && #[trigger] latest_observation(new_outputs@, id).is_spent ==> spent.contains(id)
                || unlock.contains(id)) {
            assert forall|id: OutputId|
                #[trigger] state.locked_outputs@.contains(id) implies has_output(
                state.unspent_outputs@,
                id,
            ) by {
                assert(!spent.contains(id)) by {
                    if spent.contains(id) {
                        let k1 = choose|k1: int| 0 <= k1 < spent.len() && spent[k1] == id;
                        assert(!after_spent_locked.contains(id));
                        assert(state.locked_outputs@.contains(id) ==> after_spent_locked.contains(
                            id,
                        ));
                    }
                }
                assert(!unlock.contains(id)) by {
                    if unlock.contains(id) {
                        let k2 = choose|k2: int| 0 <= k2 < unlock.len() && unlock[k2] == id;
                        assert(!state.locked_outputs@.contains(id));
                    }
                }
                assert(after_spent_locked.contains(id) == pre.locked_outputs@.contains(id));
                assert(state.locked_outputs@.contains(id) == after_spent_locked.contains(id));
                assert(pre.locked_outputs@.contains(id));
                assert(has_output(pre.unspent_outputs@, id));
                if has_output(new_outputs@, id) {
                    assert(!latest_observation(new_outputs@, id).is_spent);
                    let k0 = choose|k0: int|
                        0 <= k0 < new_outputs@.len() && new_outputs@[k0].output_id == id;
                    assert(has_output(after_outputs, new_outputs@[k0].output_id));
                    assert(output_at(after_outputs, id) == latest_observation(new_outputs@, id));
                    assert(has_output(after_new_unspent, id));
                } else {
                    assert(has_output(after_new_unspent, id) == has_output(
                        pre.unspent_outputs@,
                        id,
                    ));
                }
                assert(has_output(after_spent_unspent, id) == has_output(after_new_unspent, id));
                assert(has_output(state.unspent_outputs@, id) == has_output(
                    after_spent_unspent,
                    id,
                ));
            }
        }
    }
    Ok(())
}

/// The total amount carried by these outputs.
pub open spec fn sum_output_amounts(s: Seq<OutputData>) -> int
    decreases s.len(),
{
    if s.len() == 0 {
        0
    } else {
        sum_output_amounts(s.drop_last()) + s.last().amount
    }
}

/// The amount carried by those of these outputs that are reserved.
pub open spec fn sum_locked(s: Seq<OutputData>, locked: Seq<OutputId>) -> int
    decreases s.len(),
{
    if s.len() == 0 {
        0
    } else {
        sum_locked(s.drop_last(), locked) + (if locked.contains(s.last().output_id) {
            s.last().amount as int
        } else {
            0
        })
    }
}

/// The reserved part of a total never exceeds the total, and neither is
/// negative.
pub proof fn lemma_sum_locked_bounds(s: Seq<OutputData>, locked: Seq<OutputId>)
    ensures
        0 <= sum_locked(s, locked) <= sum_output_amounts(s),
    decreases s.len(),
{
    if s.len() > 0 {
        lemma_sum_locked_bounds(s.drop_last(), locked);
    }
}

/// A longer prefix never carries less.
proof fn lemma_sum_output_amounts_take_monotonic(s: Seq<OutputData>, k: int, m: int)
    requires
        0 <= k <= m <= s.len(),
    ensures
        sum_output_amounts(s.take(k)) <= sum_output_amounts(s.take(m)),
    decreases m - k,
{
    if k < m {
        lemma_sum_output_amounts_take_monotonic(s, k, m - 1);
        assert(s.take(m).drop_last() =~= s.take(m - 1));
        assert(sum_output_amounts(s.take(m)) == sum_output_amounts(s.take(m - 1)) + s[m - 1].amount);
    } else {
        assert(s.take(k) =~= s.take(m));
    }
}

/// Whether this output is reserved by an in-flight transaction.
fn locked_contains(locked: &Vec<OutputId>, id: OutputId) -> (r: bool)
    ensures
        r == locked@.contains(id),
{
    let mut i: usize = 0;
    while i < locked.len()
        invariant
            0 <= i <= locked@.len(),
            forall|k: int| 0 <= k < i ==> locked@[k] != id,
        decreases locked@.len() - i,
    {
        if locked[i] == id {
            return true;
        }
        i = i + 1;
    }
    false
}

/// The funds the account controls: the total of its unspent outputs, and
/// what remains available once the reserved outputs are set aside.
pub fn account_balance(state: &AccountState) -> (r: AccountBalance)
    requires
        sum_output_amounts(state.unspent_outputs@) <= u64::MAX,
    ensures
        r.total == sum_output_amounts(state.unspent_outputs@),
        r.available == sum_output_amounts(state.unspent_outputs@) - sum_locked(
            state.unspent_outputs@,
            state.locked_outputs@,
        ),
{
    let ghost outputs = state.unspent_outputs@;
    let ghost locked_ids = state.locked_outputs@;
    let mut total: u64 = 0;
    let mut locked_total: u64 = 0;
    let mut i: usize = 0;
    while i < state.unspent_outputs.len()
        invariant
            0 <= i <= outputs.len(),
            outputs == state.unspent_outputs@,
            locked_ids == state.locked_outputs@,
            sum_output_amounts(outputs) <= u64::MAX,
            total == sum_output_amounts(outputs.take(i as int)),
            locked_total == sum_locked(outputs.take(i as int), locked_ids),
            0 <= locked_total <= total,
        decreases outputs.len() - i,
    {
        let entry = state.unspent_outputs[i];
        proof {
            assert(outputs.take(i + 1).drop_last() =~= outputs.take(i as int));
            assert(outputs.take(i + 1).last() == entry);
            lemma_sum_output_amounts_take_monotonic(outputs, i + 1, outputs.len() as int);
            assert(outputs.take(outputs.len() as int) =~= outputs);
            lemma_sum_locked_bounds(outputs.take(i as int), locked_ids);
        }
        total = total + entry.amount;
        if locked_contains(&state.locked_outputs, entry.output_id) {
            locked_total = locked_total + entry.amount;
        }
        i = i + 1;
    }
    proof {
        assert(outputs.take(outputs.len() as int) =~= outputs);
    }
    AccountBalance { total, available: total - locked_total }
}

/// The address-book entries a synchronization pass covers: those at or
/// above the chosen start index, in their stored order.
pub open spec fn eligible_from(s: Seq<AccountAddress>, start: u32) -> Seq<AccountAddress> {
    s.filter(|a: AccountAddress| a.key_index >= start)
}

/// Selects the addresses to synchronize from one half of the address
/// book: every entry at or above the start index.
pub fn addresses_to_sync(book: &Vec<AccountAddress>, address_start_index: u32) -> (r: Vec<
    AccountAddress,
>)
    ensures
        r@ == eligible_from(book@, address_start_index),
{
    let ghost pre = book@;
    let mut out: Vec<AccountAddress> = Vec::new();
    let mut i: usize = 0;
    while i < book.len()
        invariant
            0 <= i <= book@.len(),
            book@ == pre,
            out@ == eligible_from(pre.take(i as int), address_start_index),
        decreases book@.len() - i,
    {
        let entry = book[i];
        proof {
            assert(pre.take(i + 1) == pre.take(i as int).push(pre[i as int]));
        }
        if entry.key_index >= address_start_index {
            out.push(entry);
        }
        i = i + 1;
    }
    proof {
        assert(pre.take(pre.len() as int) =~= pre);
    }
    out
}

/// The amount to record for an address: the total carried by the outputs
/// observed on it.
pub fn address_amount(outputs: &Vec<OutputData>) -> (r: u64)
    requires
        sum_output_amounts(outputs@) <= u64::MAX,
    ensures
        r == sum_output_amounts(outputs@),
{
    let ghost all = outputs@;
    let mut total: u64 = 0;
    let mut i: usize = 0;
    while i < outputs.len()
        invariant
            0 <= i <= all.len(),
            all == outputs@,
            sum_output_amounts(all) <= u64::MAX,
            total == sum_output_amounts(all.take(i as int)),
        decreases all.len() - i,
    {
        proof {
            assert(all.take(i + 1).drop_last() =~= all.take(i as int));
            assert(all.take(i + 1).last() == all[i as int]);
            lemma_sum_output_amounts_take_monotonic(all, i + 1, all.len() as int);
            assert(all.take(all.len() as int) =~= all);
        }
        total = total + outputs[i].amount;
        i = i + 1;
    }
    proof {
        assert(all.take(all.len() as int) =~= all);
    }
    total
}

/// Whether the gap since the last completed synchronization is too short
/// to start another, absent forcing.
pub open spec fn sync_skipped(last_synced: u128, time_now: u128, force_syncing: bool) -> bool {
    time_now - last_synced < MIN_SYNC_INTERVAL && !force_syncing
}

/// Decides whether a synchronization pass should run now or hand back the
/// balance already on hand.
pub fn sync_gate(last_synced: u128, time_now: u128, force_syncing: bool) -> (proceed: bool)
    requires
        last_synced <= time_now,
    ensures
        proceed == !sync_skipped(last_synced, time_now, force_syncing),
{
    let elapsed = time_now - last_synced;
    !(elapsed < MIN_SYNC_INTERVAL && !force_syncing)
}

/// Records the moment a successful synchronization began. The invariant
/// does not mention the timestamp, so it is untouched.
pub fn record_sync_time(state: &mut AccountState, time_now: u128)
    ensures
        *final(state) == (AccountState { last_synced: time_now, ..*old(state) }),
        final(state).wf() == old(state).wf(),
{
    state.last_synced = time_now;
}

/// Law: a synchronization begun within the minimum interval of the last
/// completed one, and not forced, is skipped. The skipped call makes no
/// commit, so `last_synced`, the account state, and with them the balance
/// it reports are exactly those left by the first call.
pub proof fn lemma_repeat_sync_within_interval_skipped(state: AccountState, time_now: u128)
    requires
        state.last_synced <= time_now,
        time_now - state.last_synced < MIN_SYNC_INTERVAL,
    ensures
        sync_skipped(state.last_synced, time_now, false),
{
}

} // verus!
