//! Input selection: choosing UTXOs to fund a target amount.
//!
//! Candidates come from the node's indexer, already filtered to basic
//! outputs free of expiration, timelock, and storage-deposit-return
//! conditions, so an offline signer never signs an input whose
//! spendability depends on a clock. The selection sorts candidates by
//! amount, largest first, and takes the shortest prefix that covers the
//! target, never exceeding the ledger's input-count limit.

use vstd::prelude::*;
use crate::INPUT_COUNT_MAX;
use crate::error::ClientError;
use crate::ids::OutputId;

verus! {

broadcast use vstd::seq_lib::group_to_multiset_ensures, vstd::multiset::group_multiset_axioms,
    Seq::lemma_filter_push, Seq::filter_distributes_over_add, Seq::lemma_filter_len,
    Seq::add_empty_left, Seq::add_empty_right;

/// A spendable output under consideration: its name on the ledger and its
/// amount at the time of selection.
#[derive(Clone, Copy, PartialEq, Eq, Structural, Debug)]
pub struct InputCandidate {
    pub output_id: OutputId,
    pub amount: u64,
}

/// Whether the candidates are ordered by amount, largest first.
pub open spec fn sorted_descending(s: Seq<InputCandidate>) -> bool {
    forall|i: int, j: int| 0 <= i < j < s.len() ==> s[i].amount >= s[j].amount
}

/// Holds of the candidates that carry this amount.
pub open spec fn with_amount(a: u64) -> spec_fn(InputCandidate) -> bool {
    |c: InputCandidate| c.amount == a
}

/// Whether `sorted` is the stable largest-first arrangement of
/// `original`: ordered by amount, and for every amount the candidates
/// carrying it keep exactly their original relative order. The two
/// conditions together determine the arrangement completely.
pub open spec fn stable_descending(sorted: Seq<InputCandidate>, original: Seq<InputCandidate>) -> bool {
    &&& sorted_descending(sorted)
    &&& forall|a: u64|
        #[trigger] sorted.filter(with_amount(a)) == original.filter(with_amount(a))
}

/// Filtering keeps nothing of a sequence with no matching element.
proof fn lemma_filter_no_match_is_empty(s: Seq<InputCandidate>, p: spec_fn(InputCandidate) -> bool)
    requires
        forall|i: int| 0 <= i < s.len() ==> !p(s[i]),
    ensures
        s.filter(p) == Seq::<InputCandidate>::empty(),
    decreases s.len(),
{
    if s.len() == 0 {
        assert(s.filter(p).len() <= 0);
        assert(s.filter(p) =~= Seq::<InputCandidate>::empty());
    } else {
        assert(s =~= s.drop_last().push(s.last()));
        assert(!p(s.last()));
        lemma_filter_no_match_is_empty(s.drop_last(), p);
        assert(s.drop_last().push(s.last()).filter(p) == s.drop_last().filter(p));
    }
}

/// The total amount carried by a sequence of candidates.
pub open spec fn sum_amounts(s: Seq<InputCandidate>) -> int
    decreases s.len(),
{
    if s.len() == 0 {
        0
    } else {
        sum_amounts(s.drop_last()) + s.last().amount
    }
}

/// The total of a sequence of candidates is never negative.
pub proof fn lemma_sum_nonneg(s: Seq<InputCandidate>)
    ensures
        sum_amounts(s) >= 0,
    decreases s.len(),
{
    if s.len() > 0 {
        lemma_sum_nonneg(s.drop_last());
    }
}

/// Each candidate contributes a non-negative amount, so a longer prefix
/// never carries less.
pub proof fn lemma_sum_take_monotonic(s: Seq<InputCandidate>, k: int, m: int)
    requires
        0 <= k <= m <= s.len(),
    ensures
        sum_amounts(s.take(k)) <= sum_amounts(s.take(m)),
    decreases m - k,
{
    if k < m {
        lemma_sum_take_monotonic(s, k, m - 1);
        assert(s.take(m).drop_last() =~= s.take(m - 1));
        assert(sum_amounts(s.take(m)) == sum_amounts(s.take(m - 1)) + s[m - 1].amount);
    } else {
        assert(s.take(k) =~= s.take(m));
    }
}

/// Sorts candidates by amount, largest first, keeping candidates of
/// equal amount in their original relative order. The result holds
/// exactly the candidates given, as a multiset.
pub fn sort_candidates_descending(candidates: Vec<InputCandidate>) -> (r: Vec<InputCandidate>)
    ensures
        sorted_descending(r@),
        stable_descending(r@, candidates@),
        r@.to_multiset() == candidates@.to_multiset(),
{
    let ghost orig = candidates@;
    let mut remaining = candidates;
    let mut out: Vec<InputCandidate> = Vec::new();
    proof {
        assert forall|a: u64| #[trigger] out@.filter(with_amount(a)) + remaining@.filter(
            with_amount(a),
        ) == orig.filter(with_amount(a)) by {
            lemma_filter_no_match_is_empty(out@, with_amount(a));
            assert(out@.filter(with_amount(a)) + remaining@.filter(with_amount(a))
                =~= remaining@.filter(with_amount(a)));
        }
    }
    while remaining.len() > 0
        invariant
            sorted_descending(out@),
            out@.to_multiset().add(remaining@.to_multiset()) == orig.to_multiset(),
            forall|k: int|
                0 <= k < remaining@.len() && out@.len() > 0 ==> out@.last().amount
                    >= remaining@[k].amount,
            forall|a: u64|
                #[trigger] out@.filter(with_amount(a)) + remaining@.filter(with_amount(a))
                    == orig.filter(with_amount(a)),
        decreases remaining@.len(),
    {
        let mut m: usize = 0;
        let mut k: usize = 1;
        while k < remaining.len()
            invariant
                0 <= m < k <= remaining@.len(),
                remaining@.len() > 0,
                forall|j: int| 0 <= j < k ==> remaining@[j].amount <= remaining@[m as int].amount,
                forall|j: int| 0 <= j < m ==> remaining@[j].amount < remaining@[m as int].amount,
            decreases remaining@.len() - k,
        {
            if remaining[k].amount > remaining[m].amount {
                m = k;
            }
            k = k + 1;
        }
        let ghost rem_old = remaining@;
        let ghost out_old = out@;
        let e = remaining.remove(m);
        out.push(e);
        proof {
            assert(rem_old.contains(rem_old[m as int]));
            assert(rem_old.to_multiset().count(e) > 0);
            assert(out@.to_multiset() == out_old.to_multiset().insert(e));
            assert(remaining@.to_multiset() == rem_old.to_multiset().remove(e));
            assert(out@.to_multiset().add(remaining@.to_multiset()) =~= orig.to_multiset());
            assert(forall|k2: int|
                0 <= k2 < remaining@.len() ==> rem_old.contains(remaining@[k2]));
            let front = rem_old.take(m as int);
            let back = rem_old.skip(m + 1);
            assert(rem_old =~= front + seq![e] + back);
            assert(remaining@ =~= front + back);
            assert forall|a: u64| #[trigger] out@.filter(with_amount(a)) + remaining@.filter(
                with_amount(a),
            ) == orig.filter(with_amount(a)) by {
                let p = with_amount(a);
                assert(out_old.filter(p) + rem_old.filter(p) == orig.filter(p));
                assert((front + seq![e] + back).filter(p) == (front + seq![e]).filter(p)
                    + back.filter(p));
                assert((front + seq![e]).filter(p) == front.filter(p) + seq![e].filter(p));
                assert((front + back).filter(p) == front.filter(p) + back.filter(p));
                assert(seq![e] =~= Seq::<InputCandidate>::empty().push(e));
                lemma_filter_no_match_is_empty(Seq::<InputCandidate>::empty(), p);
                assert(seq![e].filter(p) == (if p(e) {
                    Seq::<InputCandidate>::empty().push(e)
                } else {
                    Seq::<InputCandidate>::empty()
                }));
                assert(out@.filter(p) == (if p(e) {
                    out_old.filter(p).push(e)
                } else {
                    out_old.filter(p)
                }));
                if p(e) {
                    assert forall|j: int| 0 <= j < front.len() implies !p(front[j]) by {
                        assert(front[j] == rem_old[j]);
                        assert(rem_old[j].amount < rem_old[m as int].amount);
                    }
                    lemma_filter_no_match_is_empty(front, p);
                    assert(out@.filter(p) + remaining@.filter(p) =~= out_old.filter(p)
                        + rem_old.filter(p));
                } else {
                    assert(rem_old.filter(p) =~= remaining@.filter(p));
                }
            }
        }
    }
    proof {
        assert forall|a: u64| #[trigger] out@.filter(with_amount(a)) == orig.filter(
            with_amount(a),
        ) by {
            lemma_filter_no_match_is_empty(remaining@, with_amount(a));
            assert(out@.filter(with_amount(a)) + remaining@.filter(with_amount(a)) =~= out@.filter(
                with_amount(a),
            ));
        }
    }
    out
}

/// Takes the shortest prefix of the sorted candidates that reaches
/// `amount`, within the input-count limit.
///
/// On success the prefix covers the target, stays within the limit, and is
/// minimal: every shorter prefix falls short. The call fails exactly when
/// even the longest admissible prefix falls short, and then reports that
/// prefix's total as the amount found.
pub fn select_from_sorted(sorted: Vec<InputCandidate>, amount: u64) -> (r: Result<
    Vec<InputCandidate>,
    ClientError,
>)
    requires
        sorted_descending(sorted@),
    ensures
        ({
            let cap = if sorted@.len() <= INPUT_COUNT_MAX {
                sorted@.len() as int
            } else {
                INPUT_COUNT_MAX as int
            };
            match r {
                Ok(selected) => {
                    &&& selected@.len() <= cap
                    &&& selected@ == sorted@.take(selected@.len() as int)
                    &&& sum_amounts(selected@) >= amount
                    &&& forall|k: int|
                        0 <= k < selected@.len() ==> sum_amounts(sorted@.take(k)) < amount
                },
                Err(e) => {
                    &&& e == (ClientError::NotEnoughBalance {
                        found: sum_amounts(sorted@.take(cap)) as u64,
                        required: amount,
                    })
                    &&& sum_amounts(sorted@.take(cap)) < amount
                },
            }
        }),
{
    let cap: usize = if sorted.len() <= INPUT_COUNT_MAX {
        sorted.len()
    } else {
        INPUT_COUNT_MAX
    };
    let mut selected: Vec<InputCandidate> = Vec::new();
    let mut total: u128 = 0;
    let mut i: usize = 0;
    while i < cap && total < amount as u128
        invariant
            0 <= i <= cap,
            cap <= sorted@.len(),
            cap <= INPUT_COUNT_MAX,
            sorted_descending(sorted@),
            selected@ == sorted@.take(i as int),
            total == sum_amounts(sorted@.take(i as int)),
            total <= i as int * (u64::MAX as int),
            forall|k: int| 0 <= k < i ==> sum_amounts(sorted@.take(k)) < amount,
        decreases cap - i,
    {
        let c = sorted[i];
        selected.push(c);
        total = total + c.amount as u128;
        proof {
            assert(sorted@.take(i + 1).drop_last() =~= sorted@.take(i as int));
            assert(sorted@.take(i + 1) =~= selected@);
        }
        i = i + 1;
    }
    if total >= amount as u128 {
        Ok(selected)
    } else {
        proof {
            lemma_sum_take_monotonic(sorted@, i as int, cap as int);
            assert(i == cap);
        }
        let found: u64 = total as u64;
        Err(ClientError::NotEnoughBalance { found, required: amount })
    }
}

/// Selects inputs that cover `amount` from the given candidates.
///
/// The result, when the candidates suffice, is a shortest admissible
/// prefix of the stable largest-first ordering of the candidates, ties
/// keeping their original relative order; it never holds
/// more inputs than the ledger accepts in one transaction, and every
/// proper prefix of it falls short of the target. When no admissible
/// prefix covers the target, the call reports the best reachable total
/// and the required amount.
pub fn select_inputs(candidates: Vec<InputCandidate>, amount: u64) -> (r: Result<
    Vec<InputCandidate>,
    ClientError,
>)
    ensures
        match r {
            Ok(selected) => {
                &&& selected@.len() <= INPUT_COUNT_MAX
                &&& sum_amounts(selected@) >= amount
                &&& exists|rest: Seq<InputCandidate>|
                    {
                        &&& #[trigger] (selected@ + rest).to_multiset()
                            == candidates@.to_multiset()
                        &&& stable_descending(selected@ + rest, candidates@)
                    }
                &&& forall|k: int| 0 <= k < selected@.len() ==> sum_amounts(selected@.take(k)) < amount
            },
            Err(e) => {
                &&& e matches ClientError::NotEnoughBalance { found, required }
                &&& required == amount
                &&& found < amount
                &&& exists|sorted: Seq<InputCandidate>|
                    {
                        let cap = if sorted.len() <= INPUT_COUNT_MAX {
                            sorted.len() as int
                        } else {
                            INPUT_COUNT_MAX as int
                        };
                        &&& #[trigger] sorted.to_multiset() == candidates@.to_multiset()
                        &&& sorted_descending(sorted)
                        &&& found == sum_amounts(sorted.take(cap))
                    }
            },
        },
{
    let sorted = sort_candidates_descending(candidates);
    let ghost sorted_seq = sorted@;
    let r = select_from_sorted(sorted, amount);
    match r {
        Ok(selected) => {
            proof {
                let rest = sorted_seq.skip(selected@.len() as int);
                assert(selected@ + rest =~= sorted_seq);
                assert((selected@ + rest).to_multiset() == candidates@.to_multiset());
                assert(stable_descending(selected@ + rest, candidates@));
                assert forall|k: int| 0 <= k < selected@.len() implies sum_amounts(
                    selected@.take(k),
                ) < amount by {
                    assert(selected@.take(k) =~= sorted_seq.take(k));
                    assert(sum_amounts(sorted_seq.take(k)) < amount);
                }
            }
            Ok(selected)
        },
        Err(e) => {
            proof {
                let cap = if sorted_seq.len() <= INPUT_COUNT_MAX {
                    sorted_seq.len() as int
                } else {
                    INPUT_COUNT_MAX as int
                };
                lemma_sum_nonneg(sorted_seq.take(cap));
                assert(sorted_seq.to_multiset() == candidates@.to_multiset());
            }
            Err(e)
        },
    }
}

/// The ledger names of the selected inputs, in selection order.
pub fn candidate_output_ids(selected: &Vec<InputCandidate>) -> (r: Vec<OutputId>)
    ensures
        r@ == selected@.map_values(|c: InputCandidate| c.output_id),
{
    let mut ids: Vec<OutputId> = Vec::new();
    let mut i: usize = 0;
    while i < selected.len()
        invariant
            0 <= i <= selected@.len(),
            ids@ == selected@.take(i as int).map_values(|c: InputCandidate| c.output_id),
        decreases selected@.len() - i,
    {
        ids.push(selected[i].output_id);
        proof {
            assert(selected@.take(i + 1).map_values(|c: InputCandidate| c.output_id)
                =~= selected@.take(i as int).map_values(|c: InputCandidate| c.output_id).push(
                selected@[i as int].output_id,
            ));
        }
        i = i + 1;
    }
    proof {
        assert(selected@.take(i as int) =~= selected@);
    }
    ids
}

} // verus!
