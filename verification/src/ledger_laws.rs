//! What holds of a ledger over whole histories of calls.

use vstd::prelude::*;

use crate::ledger::{
    after_call, call_allowed, epoch_copied, epoch_id_limit, is_latest, latest,
    lemma_below_insert, lemma_below_skips, no_gaps, total_transactions, EpochId, EpochView,
    LedgerCall,
};
use crate::transactions::{payload_copied, transaction_copied, TransactionView, TxPayloadView};

verus! {

/// What a fresh ledger holds after `calls`, made in their order.
pub open spec fn after_calls<OpType>(calls: Seq<LedgerCall<OpType>>) -> Map<
    EpochId,
    EpochView<OpType>,
>
    decreases calls.len(),
{
    if calls.len() == 0 {
        Map::empty()
    } else {
        after_call(after_calls(calls.drop_last()), calls.last())
    }
}

/// Whether a fresh ledger admits each of `calls` in its turn.
pub open spec fn calls_allowed<OpType>(calls: Seq<LedgerCall<OpType>>) -> bool
    decreases calls.len(),
{
    calls.len() > 0 ==> calls_allowed(calls.drop_last()) && call_allowed(
        after_calls(calls.drop_last()),
        calls.last(),
    )
}

/// How many transactions `calls` bring into a ledger: one for each insert,
/// and for each epoch taken over as many as it holds.
pub open spec fn transactions_brought<OpType>(calls: Seq<LedgerCall<OpType>>) -> nat
    decreases calls.len(),
{
    if calls.len() == 0 {
        0
    } else {
        transactions_brought(calls.drop_last()) + match calls.last() {
            LedgerCall::CreateNewEpoch { .. } => 0,
            LedgerCall::SynchronizeEpoch { epoch, .. } => epoch.transactions.len(),
            LedgerCall::Insert { .. } => 1,
        }
    }
}

/// Whether one of `calls` brings an epoch into being under `id`.
pub open spec fn brings_epoch<OpType>(calls: Seq<LedgerCall<OpType>>, id: EpochId) -> bool {
    exists|i: int|
        0 <= i < calls.len() && match #[trigger] calls[i] {
            LedgerCall::CreateNewEpoch { identifier, .. } => identifier == id,
            LedgerCall::SynchronizeEpoch { identifier, .. } => identifier == id,
            LedgerCall::Insert { .. } => false,
        }
}

/// Whether `later` holds all that `earlier` held: each epoch under its id,
/// with its timestamp, and with its transactions in their places at the
/// front of what it holds now.
pub open spec fn grown_from<OpType>(
    earlier: Map<EpochId, EpochView<OpType>>,
    later: Map<EpochId, EpochView<OpType>>,
) -> bool {
    forall|id: EpochId| #[trigger]
        earlier.contains_key(id) ==> {
            &&& later.contains_key(id)
            &&& later[id].timestamp == earlier[id].timestamp
            &&& earlier[id].transactions.is_prefix_of(later[id].transactions)
        }
}

/// The ids below `n`: finitely many, and `n` of them.
pub proof fn lemma_ids_below(n: nat)
    requires
        n <= epoch_id_limit(),
    ensures
        Set::<EpochId>::new(|id: EpochId| id < n).finite(),
        Set::<EpochId>::new(|id: EpochId| id < n).len() == n,
    decreases n,
{
    let ids = Set::<EpochId>::new(|id: EpochId| id < n);
    if n == 0 {
        assert(ids =~= Set::empty());
    } else {
        let fewer = Set::<EpochId>::new(|id: EpochId| id < (n - 1) as nat);
        lemma_ids_below((n - 1) as nat);
        assert(ids =~= fewer.insert((n - 1) as EpochId));
    }
}

/// Whether `top` is the largest of the `ids` below `bound`.
spec fn is_largest_below(ids: Set<EpochId>, bound: nat, top: EpochId) -> bool {
    &&& ids.contains(top)
    &&& top < bound
    &&& forall|other: EpochId| ids.contains(other) && other < bound ==> other <= top
}

/// Among the ids below `bound`, where there is one, one is the largest.
proof fn lemma_largest_below(ids: Set<EpochId>, bound: nat, some: EpochId)
    requires
        bound <= epoch_id_limit(),
        ids.contains(some),
        some < bound,
    ensures
        exists|top: EpochId| is_largest_below(ids, bound, top),
    decreases bound,
{
    let last = (bound - 1) as EpochId;
    if ids.contains(last) {
        assert(is_largest_below(ids, bound, last));
    } else {
        let smaller = (bound - 1) as nat;
        lemma_largest_below(ids, smaller, some);
        let top = choose|top: EpochId| is_largest_below(ids, smaller, top);
        assert(is_largest_below(ids, bound, top));
    }
}

/// Among ids of which there is at least one, one is the largest.
pub proof fn lemma_latest_exists(ids: Set<EpochId>)
    requires
        exists|id: EpochId| ids.contains(id),
    ensures
        is_latest(ids, latest(ids)),
{
    let some = choose|id: EpochId| ids.contains(id);
    lemma_largest_below(ids, epoch_id_limit(), some);
    let top = choose|top: EpochId| is_largest_below(ids, epoch_id_limit(), top);
    assert(is_latest(ids, top));
}

/// After calls that a fresh ledger admits, the ledger holds finitely many
/// epochs: those that the calls brought into being.
pub proof fn lemma_epochs_after_calls<OpType>(calls: Seq<LedgerCall<OpType>>)
    requires
        calls_allowed(calls),
    ensures
        after_calls(calls).dom().finite(),
        forall|id: EpochId| after_calls(calls).contains_key(id) <==> brings_epoch(calls, id),
    decreases calls.len(),
{
    if calls.len() > 0 {
        let before = calls.drop_last();
        let held = after_calls(before);
        lemma_epochs_after_calls(before);
        if calls.last() is Insert {
            assert(exists|id: EpochId| held.dom().contains(id)) by {
                if held.dom() =~= Set::empty() {
                } else {
                    let id = choose|id: EpochId| held.dom().contains(id);
                }
            }
            lemma_latest_exists(held.dom());
        }
        assert forall|id: EpochId| after_calls(calls).contains_key(id) <==> brings_epoch(
            calls,
            id,
        ) by {
            if brings_epoch(before, id) {
                let i = choose|i: int|
                    0 <= i < before.len() && match #[trigger] before[i] {
                        LedgerCall::CreateNewEpoch { identifier, .. } => identifier == id,
                        LedgerCall::SynchronizeEpoch { identifier, .. } => identifier == id,
                        LedgerCall::Insert { .. } => false,
                    };
                assert(calls[i] == before[i]);
            }
            if brings_epoch(calls, id) {
                let i = choose|i: int|
                    0 <= i < calls.len() && match #[trigger] calls[i] {
                        LedgerCall::CreateNewEpoch { identifier, .. } => identifier == id,
                        LedgerCall::SynchronizeEpoch { identifier, .. } => identifier == id,
                        LedgerCall::Insert { .. } => false,
                    };
                if i < before.len() {
                    assert(calls[i] == before[i]);
                }
            }
        }
    }
}

/// Once the epochs `0` to `n - 1` have all been brought into being, and no
/// other, in whatever order and with whatever inserts between them, the
/// ledger has no gap.
pub proof fn lemma_all_created_leaves_no_gap<OpType>(calls: Seq<LedgerCall<OpType>>, n: nat)
    requires
        calls_allowed(calls),
        forall|id: EpochId| brings_epoch(calls, id) <==> id < n,
    ensures
        no_gaps(after_calls(calls).dom()),
{
    lemma_epochs_after_calls(calls);
    let ids = after_calls(calls).dom();
    let count = if n <= epoch_id_limit() {
        n
    } else {
        epoch_id_limit()
    };
    lemma_ids_below(count);
    assert forall|id: EpochId| ids.contains(id) <==> id < count by {
        assert(after_calls(calls).contains_key(id) <==> brings_epoch(calls, id));
    }
    assert(ids =~= Set::<EpochId>::new(|id: EpochId| id < count));
}

/// While an id is missing below one that is there, the ids have a gap.
pub proof fn lemma_missing_id_is_a_gap(ids: Set<EpochId>, missing: EpochId, present: EpochId)
    requires
        !ids.contains(missing),
        ids.contains(present),
        missing < present,
    ensures
        !no_gaps(ids),
{
}

/// A ledger that holds nothing admits no insert.
pub proof fn lemma_fresh_ledger_admits_no_insert<OpType>(transaction: TransactionView<OpType>)
    ensures
        !call_allowed(
            Map::<EpochId, EpochView<OpType>>::empty(),
            LedgerCall::Insert { transaction },
        ),
{
}

/// An id under which an epoch was created or taken over admits no second
/// epoch, whatever the ledger admitted in between.
pub proof fn lemma_id_is_used_once<OpType>(
    calls: Seq<LedgerCall<OpType>>,
    identifier: EpochId,
    timestamp: i64,
    epoch: EpochView<OpType>,
)
    requires
        calls_allowed(calls),
        brings_epoch(calls, identifier),
    ensures
        !call_allowed(after_calls(calls), LedgerCall::CreateNewEpoch { identifier, timestamp }),
        !call_allowed(after_calls(calls), LedgerCall::SynchronizeEpoch { identifier, epoch }),
{
    lemma_epochs_after_calls(calls);
}

/// After calls that a fresh ledger admits, the ledger holds as many
/// transactions as the calls brought.
pub proof fn lemma_transactions_are_counted<OpType>(calls: Seq<LedgerCall<OpType>>)
    requires
        calls_allowed(calls),
    ensures
        total_transactions(after_calls(calls)) == transactions_brought(calls),
    decreases calls.len(),
{
    if calls.len() == 0 {
        lemma_below_skips(Map::<EpochId, EpochView<OpType>>::empty(), 0, epoch_id_limit());
    } else {
        let before = calls.drop_last();
        let held = after_calls(before);
        lemma_transactions_are_counted(before);
        lemma_epochs_after_calls(before);
        match calls.last() {
            LedgerCall::CreateNewEpoch { identifier, timestamp } => {
                lemma_below_insert(
                    held,
                    identifier,
                    EpochView::empty(timestamp),
                    epoch_id_limit(),
                );
            },
            LedgerCall::SynchronizeEpoch { identifier, epoch } => {
                lemma_below_insert(held, identifier, epoch, epoch_id_limit());
            },
            LedgerCall::Insert { transaction } => {
                assert(exists|id: EpochId| held.dom().contains(id)) by {
                    if held.dom() =~= Set::empty() {
                    } else {
                        let id = choose|id: EpochId| held.dom().contains(id);
                    }
                }
                lemma_latest_exists(held.dom());
                let current = latest(held.dom());
                lemma_below_insert(
                    held,
                    current,
                    held[current].with(transaction),
                    epoch_id_limit(),
                );
            },
        }
    }
}

/// A call that a ledger admits takes nothing away: each epoch stays under
/// its id, and its transactions stay in their places.
pub proof fn lemma_call_keeps_what_is_held<OpType>(
    epochs: Map<EpochId, EpochView<OpType>>,
    call: LedgerCall<OpType>,
)
    requires
        call_allowed(epochs, call),
    ensures
        grown_from(epochs, after_call(epochs, call)),
{
    let later = after_call(epochs, call);
    assert forall|id: EpochId| #[trigger] epochs.contains_key(id) implies {
        &&& later.contains_key(id)
        &&& later[id].timestamp == epochs[id].timestamp
        &&& epochs[id].transactions.is_prefix_of(later[id].transactions)
    } by {
        assert(epochs[id].transactions.is_prefix_of(epochs[id].transactions));
        if let LedgerCall::Insert { transaction } = call {
            let grown = epochs[id].transactions.push(transaction);
            assert(epochs[id].transactions =~= grown.subrange(
                0,
                epochs[id].transactions.len() as int,
            ));
        }
    }
}

/// What a ledger held after the first `k` of its calls it holds ever after.
pub proof fn lemma_calls_keep_what_is_held<OpType>(calls: Seq<LedgerCall<OpType>>, k: int)
    requires
        calls_allowed(calls),
        0 <= k <= calls.len(),
    ensures
        calls_allowed(calls.take(k)),
        grown_from(after_calls(calls.take(k)), after_calls(calls)),
    decreases calls.len() - k,
{
    let earlier = after_calls(calls.take(k));
    if k == calls.len() {
        assert(calls.take(k) =~= calls);
        assert forall|id: EpochId| #[trigger] earlier.contains_key(id) implies earlier[id]
            .transactions.is_prefix_of(earlier[id].transactions) by {
            assert(earlier[id].transactions =~= earlier[id].transactions.subrange(
                0,
                earlier[id].transactions.len() as int,
            ));
        }
    } else {
        let before = calls.drop_last();
        assert(before.take(k) =~= calls.take(k));
        lemma_calls_keep_what_is_held(before, k);
        let middle = after_calls(before);
        let later = after_calls(calls);
        lemma_call_keeps_what_is_held(middle, calls.last());
        assert forall|id: EpochId| #[trigger] earlier.contains_key(id) implies {
            &&& later.contains_key(id)
            &&& later[id].timestamp == earlier[id].timestamp
            &&& earlier[id].transactions.is_prefix_of(later[id].transactions)
        } by {
            assert(middle.contains_key(id));
            let a = earlier[id].transactions;
            let b = middle[id].transactions;
            let c = later[id].transactions;
            assert(a =~= b.subrange(0, a.len() as int));
            assert(b =~= c.subrange(0, b.len() as int));
            assert(a =~= c.subrange(0, a.len() as int));
        }
    }
}

/// A transaction lands at the end of the epoch that has the largest id when
/// it is inserted, and no later call moves it from its place there.
pub proof fn lemma_insert_lands_in_current_epoch<OpType>(calls: Seq<LedgerCall<OpType>>, k: int)
    requires
        calls_allowed(calls),
        0 <= k < calls.len(),
        calls[k] is Insert,
    ensures
        ({
            let before = after_calls(calls.take(k));
            let current = latest(before.dom());
            let place = before[current].transactions.len() as int;
            &&& is_latest(before.dom(), current)
            &&& after_calls(calls).contains_key(current)
            &&& place < after_calls(calls)[current].transactions.len()
            &&& after_calls(calls)[current].transactions[place] == calls[k]->transaction
        }),
{
    let upto = calls.take(k + 1);
    lemma_calls_keep_what_is_held(calls, k + 1);
    assert(upto.drop_last() =~= calls.take(k));
    assert(upto.last() == calls[k]);
    let before = after_calls(calls.take(k));
    lemma_calls_keep_what_is_held(upto, k);
    lemma_epochs_after_calls(calls.take(k));
    assert(exists|id: EpochId| before.dom().contains(id)) by {
        if before.dom() =~= Set::empty() {
        } else {
            let id = choose|id: EpochId| before.dom().contains(id);
        }
    }
    lemma_latest_exists(before.dom());
    let current = latest(before.dom());
    let place = before[current].transactions.len() as int;
    let then = after_calls(upto);
    assert(then.contains_key(current));
    assert(then[current].transactions[place] == calls[k]->transaction);
    let now = after_calls(calls)[current].transactions;
    assert(then[current].transactions =~= now.subrange(
        0,
        then[current].transactions.len() as int,
    ));
}

/// A copy of a transaction is equal to it wherever a clone of an operation
/// is equal to the operation.
pub proof fn lemma_transaction_copy_is_equal<OpType: Clone>(
    value: TransactionView<OpType>,
    copy: TransactionView<OpType>,
)
    requires
        transaction_copied(value, copy),
        forall|a: OpType, b: OpType| cloned(a, b) ==> a == b,
    ensures
        copy == value,
{
    assert(payload_copied(value.payload, copy.payload));
    match (value.payload, copy.payload) {
        (
            TxPayloadView::Operation { operation: a },
            TxPayloadView::Operation { operation: b },
        ) => {
            assert(cloned(a, b));
        },
        _ => {},
    }
}

/// A copy of an epoch is equal to it wherever a clone of an operation is
/// equal to the operation.
pub proof fn lemma_epoch_copy_is_equal<OpType: Clone>(
    value: EpochView<OpType>,
    copy: EpochView<OpType>,
)
    requires
        epoch_copied(value, copy),
        forall|a: OpType, b: OpType| cloned(a, b) ==> a == b,
    ensures
        copy == value,
{
    assert forall|i: int| 0 <= i < value.transactions.len() implies copy.transactions[i]
        == value.transactions[i] by {
        assert(transaction_copied(value.transactions[i], copy.transactions[i]));
        lemma_transaction_copy_is_equal(value.transactions[i], copy.transactions[i]);
    }
    assert(copy.transactions =~= value.transactions);
}

/// An epoch that a fresh ledger took over under `identifier` comes back
/// from it as it went in: what is fetched under `identifier` is a copy of
/// it, and equal to it wherever a clone of an operation is equal to the
/// operation.
pub proof fn lemma_synchronized_epoch_comes_back<OpType: Clone>(
    identifier: EpochId,
    epoch: EpochView<OpType>,
    fetched: EpochView<OpType>,
)
    requires
        epoch_copied(
            after_call(
                Map::<EpochId, EpochView<OpType>>::empty(),
                LedgerCall::SynchronizeEpoch { identifier, epoch },
            )[identifier],
            fetched,
        ),
    ensures
        call_allowed(
            Map::<EpochId, EpochView<OpType>>::empty(),
            LedgerCall::SynchronizeEpoch { identifier, epoch },
        ),
        epoch_copied(epoch, fetched),
        (forall|a: OpType, b: OpType| cloned(a, b) ==> a == b) ==> fetched == epoch,
{
    if forall|a: OpType, b: OpType| cloned(a, b) ==> a == b {
        lemma_epoch_copy_is_equal(epoch, fetched);
    }
}

} // verus!
