//! The ledger: epochs by id, each an append-only list of transactions.

use std::collections::{BTreeMap, HashMap};
use vstd::prelude::*;
use vstd::std_specs::cmp::OrdSpec;
use vstd::std_specs::iter::IteratorSpec;

use crate::crypto_helper::{AccountId, PublicKey};
use crate::transactions::{transaction_copied, Transaction, TransactionView};

verus! {

/// Numbers an epoch. The server hands the numbers out in sequence from 0.
pub type EpochId = u32;

/// One more than the largest epoch id.
pub open spec fn epoch_id_limit() -> nat {
    0x1_0000_0000
}

/// What the ledger knows of an account.
#[derive(Debug)]
pub struct Identity {
    #[allow(dead_code)]
    public_key: PublicKey,
}

/// A timestamped batch of transactions.
#[derive(Debug)]
pub struct Epoch<OpType> {
    timestamp: i64,
    transactions: Vec<Transaction<OpType>>,
}

/// What an [`Epoch`] stands for in contracts.
pub struct EpochView<OpType> {
    pub timestamp: i64,
    pub transactions: Seq<TransactionView<OpType>>,
}

impl<OpType> EpochView<OpType> {
    /// The epoch that starts at `timestamp` and holds nothing yet.
    pub open spec fn empty(timestamp: i64) -> EpochView<OpType> {
        EpochView { timestamp, transactions: Seq::empty() }
    }

    /// This epoch with `tx` appended.
    pub open spec fn with(self, tx: TransactionView<OpType>) -> EpochView<OpType> {
        EpochView { timestamp: self.timestamp, transactions: self.transactions.push(tx) }
    }
}

/// Whether `copy` is what cloning `value` may give: the same timestamp
/// and, place by place, a copy of each transaction.
pub open spec fn epoch_copied<OpType: Clone>(
    value: EpochView<OpType>,
    copy: EpochView<OpType>,
) -> bool {
    &&& copy.timestamp == value.timestamp
    &&& copy.transactions.len() == value.transactions.len()
    &&& forall|i: int|
        0 <= i < value.transactions.len() ==> transaction_copied(
            #[trigger] value.transactions[i],
            copy.transactions[i],
        )
}

impl<OpType> View for Epoch<OpType> {
    type V = EpochView<OpType>;

    closed spec fn view(&self) -> EpochView<OpType> {
        EpochView {
            timestamp: self.timestamp,
            transactions: self.transactions@.map_values(|tx: Transaction<OpType>| tx@),
        }
    }
}

impl<OpType> Epoch<OpType> {
    /// An epoch that starts at `timestamp` and holds no transaction.
    pub fn new(timestamp: i64) -> (epoch: Epoch<OpType>)
        ensures
            epoch@ == EpochView::<OpType>::empty(timestamp),
    {
        let epoch = Epoch { timestamp, transactions: Vec::new() };
        assert(epoch@.transactions =~= Seq::empty());
        epoch
    }

    /// The epoch that started at `timestamp` and holds `transactions` in
    /// their order.
    pub fn from_parts(timestamp: i64, transactions: Vec<Transaction<OpType>>) -> (epoch: Epoch<
        OpType,
    >)
        ensures
            epoch@.timestamp == timestamp,
            epoch@.transactions == transactions@.map_values(|tx: Transaction<OpType>| tx@),
    {
        Epoch { timestamp, transactions }
    }

    /// How many transactions the epoch holds.
    pub fn size(&self) -> (n: usize)
        ensures
            n == self@.transactions.len(),
    {
        self.transactions.len()
    }

    /// The transactions in the order in which they were accepted.
    pub fn get_transactions(&self) -> (transactions: &Vec<Transaction<OpType>>)
        ensures
            transactions@.len() == self@.transactions.len(),
            forall|i: int|
                0 <= i < transactions@.len() ==> (#[trigger] transactions@[i])@
                    == self@.transactions[i],
    {
        &self.transactions
    }

    /// When the epoch started.
    pub fn get_timestamp(&self) -> (timestamp: i64)
        ensures
            timestamp == self@.timestamp,
    {
        self.timestamp
    }

    /// Appends `tx`.
    fn push(&mut self, tx: Transaction<OpType>)
        ensures
            final(self)@ == old(self)@.with(tx@),
    {
        self.transactions.push(tx);
        assert(self@.transactions =~= old(self)@.transactions.push(tx@));
    }
}

impl<OpType: Clone> Clone for Epoch<OpType> {
    fn clone(&self) -> (copy: Epoch<OpType>)
        ensures
            epoch_copied(self@, copy@),
    {
        let mut transactions: Vec<Transaction<OpType>> = Vec::new();
        let mut i: usize = 0;
        while i < self.transactions.len()
            invariant
                i <= self.transactions.len(),
                transactions.len() == i,
                forall|j: int|
                    0 <= j < i ==> transaction_copied(
                        (#[trigger] self.transactions[j])@,
                        transactions[j]@,
                    ),
            decreases self.transactions.len() - i,
        {
            transactions.push(self.transactions[i].clone());
            i += 1;
        }
        let copy = Epoch { timestamp: self.timestamp, transactions };
        assert forall|j: int| 0 <= j < self@.transactions.len() implies transaction_copied(
            #[trigger] self@.transactions[j],
            copy@.transactions[j],
        ) by {
            assert(transaction_copied(self.transactions[j]@, copy.transactions[j]@));
        }
        copy
    }
}

/// Whether `id` is the largest of `ids`.
pub open spec fn is_latest(ids: Set<EpochId>, id: EpochId) -> bool {
    &&& ids.contains(id)
    &&& forall|other: EpochId| ids.contains(other) ==> other <= id
}

/// The largest of `ids`, where there is one.
pub open spec fn latest(ids: Set<EpochId>) -> EpochId {
    choose|id: EpochId| is_latest(ids, id)
}

/// Whether `ids` is exactly `0, 1, 2, ...` up to its own size.
pub open spec fn no_gaps(ids: Set<EpochId>) -> bool {
    forall|id: EpochId| ids.contains(id) <==> id < ids.len()
}

/// How many transactions the epochs with an id below `bound` hold together.
pub open spec fn transactions_below<OpType>(
    epochs: Map<EpochId, EpochView<OpType>>,
    bound: nat,
) -> nat
    decreases bound,
{
    if bound == 0 {
        0
    } else {
        let id = (bound - 1) as EpochId;
        let rest = transactions_below(epochs, (bound - 1) as nat);
        if bound <= epoch_id_limit() && epochs.contains_key(id) {
            rest + epochs[id].transactions.len()
        } else {
            rest
        }
    }
}

/// How many transactions all the epochs hold together.
pub open spec fn total_transactions<OpType>(epochs: Map<EpochId, EpochView<OpType>>) -> nat {
    transactions_below(epochs, epoch_id_limit())
}

/// A call that changes a ledger, with its arguments.
pub enum LedgerCall<OpType> {
    CreateNewEpoch { identifier: EpochId, timestamp: i64 },
    SynchronizeEpoch { identifier: EpochId, epoch: EpochView<OpType> },
    Insert { transaction: TransactionView<OpType> },
}

/// Whether a ledger that holds `epochs` admits `call`.
pub open spec fn call_allowed<OpType>(
    epochs: Map<EpochId, EpochView<OpType>>,
    call: LedgerCall<OpType>,
) -> bool {
    match call {
        LedgerCall::CreateNewEpoch { identifier, .. } => !epochs.contains_key(identifier),
        LedgerCall::SynchronizeEpoch { identifier, .. } => !epochs.contains_key(identifier),
        LedgerCall::Insert { .. } => epochs.dom().len() > 0,
    }
}

/// What a ledger that held `epochs` holds after `call`.
pub open spec fn after_call<OpType>(
    epochs: Map<EpochId, EpochView<OpType>>,
    call: LedgerCall<OpType>,
) -> Map<EpochId, EpochView<OpType>> {
    match call {
        LedgerCall::CreateNewEpoch { identifier, timestamp } => epochs.insert(
            identifier,
            EpochView::empty(timestamp),
        ),
        LedgerCall::SynchronizeEpoch { identifier, epoch } => epochs.insert(identifier, epoch),
        LedgerCall::Insert { transaction } => epochs.insert(
            latest(epochs.dom()),
            epochs[latest(epochs.dom())].with(transaction),
        ),
    }
}

/// Whether `ids` is strictly increasing.
pub open spec fn strictly_increasing(ids: Seq<EpochId>) -> bool {
    forall|i: int, j: int| 0 <= i < j < ids.len() ==> ids[i] < ids[j]
}

/// The epochs of one network and their transactions.
pub struct Ledger<OpType> {
    #[allow(dead_code)]
    identities: HashMap<AccountId, Identity>,
    epochs: BTreeMap<EpochId, Epoch<OpType>>,
}

impl<OpType> View for Ledger<OpType> {
    type V = Map<EpochId, EpochView<OpType>>;

    closed spec fn view(&self) -> Map<EpochId, EpochView<OpType>> {
        self.epochs@.map_values(|epoch: Epoch<OpType>| epoch@)
    }
}

impl<OpType> Default for Ledger<OpType> {
    fn default() -> (ledger: Ledger<OpType>)
        ensures
            ledger@ == Map::<EpochId, EpochView<OpType>>::empty(),
    {
        let ledger = Ledger { identities: HashMap::new(), epochs: BTreeMap::new() };
        assert(ledger@ =~= Map::empty());
        ledger
    }
}

/// In a sequence that a map walks in increasing order, an earlier element
/// is less than a later one.
proof fn lemma_increasing_pair<K: Ord>(s: Seq<K>, i: int, j: int)
    requires
        vstd::std_specs::btree::increasing_seq(s),
        vstd::laws_cmp::obeys_cmp::<K>(),
        0 <= i < j < s.len(),
    ensures
        s[i].cmp_spec(&s[j]) is Less,
{
    vstd::std_specs::btree::axiom_increasing_seq_meaning::<K>(s);
}

/// The ids of `epochs` from the smallest to the largest.
fn sorted_ids<OpType>(epochs: &BTreeMap<EpochId, Epoch<OpType>>) -> (ids: Vec<EpochId>)
    ensures
        strictly_increasing(ids@),
        ids@.to_set() == epochs@.dom(),
        ids@.len() == epochs@.dom().len(),
{
    let mut ids: Vec<EpochId> = Vec::new();
    let ghost all = vstd::std_specs::btree::spec_keys_iter(epochs).remaining();
    for id in it: epochs.keys()
        invariant
            it.seq() == all,
            ids@ == all.unref().subrange(0, it.index()),
    {
        ids.push(*id);
    }
    proof {
        assert(ids@ == all.unref());
        assert(vstd::laws_cmp::obeys_cmp::<&EpochId>());
        assert forall|i: int, j: int| 0 <= i < j < ids.len() implies ids[i] < ids[j] by {
            lemma_increasing_pair(all, i, j);
        }
    }
    ids
}

/// The largest id of `epochs`, as `BTreeMap::last_key_value` finds it: the
/// key of the last pair is the maximum key of the map, and there is no last
/// pair exactly when the map is empty.
#[verifier::external_body]
fn last_epoch_id<OpType>(epochs: &BTreeMap<EpochId, Epoch<OpType>>) -> (id: Option<EpochId>)
    ensures
        match id {
            Some(id) => is_latest(epochs@.dom(), id),
            None => epochs@.dom().is_empty(),
        },
{
    match epochs.last_key_value() {
        Some((id, _)) => Some(*id),
        None => None,
    }
}

/// The largest id is the only one that is the latest.
pub proof fn lemma_latest_is_unique(ids: Set<EpochId>, id: EpochId)
    requires
        is_latest(ids, id),
    ensures
        latest(ids) == id,
{
    let other = latest(ids);
    assert(is_latest(ids, other));
}

/// Epochs whose ids all lie outside `from..to` add nothing between the two
/// bounds.
pub proof fn lemma_below_skips<OpType>(
    epochs: Map<EpochId, EpochView<OpType>>,
    from: nat,
    to: nat,
)
    requires
        from <= to,
        forall|id: EpochId| from <= id < to ==> !epochs.contains_key(id),
    ensures
        transactions_below(epochs, to) == transactions_below(epochs, from),
    decreases to,
{
    if from < to {
        lemma_below_skips(epochs, from, (to - 1) as nat);
    }
}

/// The count grows with the bound.
pub proof fn lemma_below_grows<OpType>(
    epochs: Map<EpochId, EpochView<OpType>>,
    from: nat,
    to: nat,
)
    requires
        from <= to,
    ensures
        transactions_below(epochs, from) <= transactions_below(epochs, to),
    decreases to,
{
    if from < to {
        lemma_below_grows(epochs, from, (to - 1) as nat);
    }
}

/// Putting `epoch` at `id` changes the count below `bound` by the size of
/// `epoch` less the size of what stood at `id` before, where `id` is below
/// `bound`, and not at all otherwise.
pub proof fn lemma_below_insert<OpType>(
    epochs: Map<EpochId, EpochView<OpType>>,
    id: EpochId,
    epoch: EpochView<OpType>,
    bound: nat,
)
    requires
        bound <= epoch_id_limit(),
    ensures
        transactions_below(epochs.insert(id, epoch), bound) + (if id < bound
            && epochs.contains_key(id) {
            epochs[id].transactions.len()
        } else {
            0
        }) == transactions_below(epochs, bound) + (if id < bound {
            epoch.transactions.len()
        } else {
            0
        }),
    decreases bound,
{
    if bound > 0 {
        lemma_below_insert(epochs, id, epoch, (bound - 1) as nat);
    }
}

impl<OpType> Ledger<OpType> {
    /// Whether the ledger holds at least one epoch.
    pub open spec fn has_epochs(&self) -> bool {
        self@.dom().len() > 0
    }

    /// How many transactions the ledger holds.
    pub open spec fn spec_num_transactions(&self) -> nat {
        total_transactions(self@)
    }

    /// The ledger holds finitely many epochs, each under an id of its own.
    pub proof fn lemma_finite(&self)
        ensures
            self@.dom().finite(),
            self@.dom().len() <= epoch_id_limit(),
    {
        assert(self@.dom() =~= self.epochs@.dom());
        let all = Set::<EpochId>::new(|id: EpochId| true);
        let below = Set::<int>::new(|i: int| 0 <= i < epoch_id_limit());
        vstd::set_lib::lemma_int_range(0, epoch_id_limit() as int);
        assert(below =~= vstd::set_lib::set_int_range(0, epoch_id_limit() as int));
        let widened = self@.dom().map(|id: EpochId| id as int);
        vstd::set_lib::lemma_map_size(self@.dom(), widened, |id: EpochId| id as int);
        assert(widened.subset_of(below));
        vstd::set_lib::lemma_len_subset(widened, below);
    }

    /// Appends `tx` to the epoch with the largest id.
    pub fn insert(&mut self, tx: Transaction<OpType>)
        requires
            call_allowed(old(self)@, LedgerCall::Insert { transaction: tx@ }),
        ensures
            final(self)@ == after_call(old(self)@, LedgerCall::Insert { transaction: tx@ }),
            final(self).spec_num_transactions() == old(self).spec_num_transactions() + 1,
    {
        proof {
            self.lemma_finite();
            assert(self@.dom() =~= self.epochs@.dom());
        }
        let current = last_epoch_id(&self.epochs);
        if let Some(id) = current {
            proof {
                lemma_latest_is_unique(self@.dom(), id);
            }
            if let Some(mut epoch) = self.epochs.remove(&id) {
                epoch.push(tx);
                self.epochs.insert(id, epoch);
                proof {
                    assert(self@ =~= old(self)@.insert(id, old(self)@[id].with(tx@)));
                    lemma_below_insert(old(self)@, id, old(self)@[id].with(tx@), epoch_id_limit());
                }
            }
        }
    }

    /// Whether an epoch stands under `identifier`.
    pub fn contains_epoch(&self, identifier: EpochId) -> (found: bool)
        ensures
            found == self@.contains_key(identifier),
    {
        proof {
            assert(self@.dom() =~= self.epochs@.dom());
        }
        self.epochs.contains_key(&identifier)
    }

    /// When the epoch under `identifier` started.
    pub fn get_epoch_timestamp(&self, identifier: EpochId) -> (timestamp: i64)
        requires
            self@.contains_key(identifier),
        ensures
            timestamp == self@[identifier].timestamp,
    {
        proof {
            assert(self@.dom() =~= self.epochs@.dom());
        }
        let epoch = self.epochs.get(&identifier).unwrap();
        epoch.get_timestamp()
    }

    /// How many epochs the ledger holds.
    pub fn num_epochs(&self) -> (n: usize)
        ensures
            n == self@.dom().len(),
    {
        proof {
            assert(self@.dom() =~= self.epochs@.dom());
        }
        self.epochs.len()
    }

    /// Starts an epoch under `identifier`, with no transaction in it.
    pub fn create_new_epoch(&mut self, identifier: EpochId, timestamp: i64)
        requires
            call_allowed(old(self)@, LedgerCall::<OpType>::CreateNewEpoch { identifier, timestamp }),
        ensures
            final(self)@ == after_call(
                old(self)@,
                LedgerCall::CreateNewEpoch { identifier, timestamp },
            ),
            final(self).spec_num_transactions() == old(self).spec_num_transactions(),
    {
        self.epochs.insert(identifier, Epoch::new(timestamp));
        proof {
            assert(self@ =~= old(self)@.insert(identifier, EpochView::empty(timestamp)));
            lemma_below_insert(
                old(self)@,
                identifier,
                EpochView::empty(timestamp),
                epoch_id_limit(),
            );
        }
    }

    /// Takes over `epoch` as it is, under `identifier`.
    pub fn synchronize_epoch(&mut self, identifier: EpochId, epoch: Epoch<OpType>)
        requires
            call_allowed(
                old(self)@,
                LedgerCall::SynchronizeEpoch { identifier, epoch: epoch@ },
            ),
        ensures
            final(self)@ == after_call(
                old(self)@,
                LedgerCall::SynchronizeEpoch { identifier, epoch: epoch@ },
            ),
            final(self).spec_num_transactions() == old(self).spec_num_transactions()
                + epoch@.transactions.len(),
    {
        self.epochs.insert(identifier, epoch);
        proof {
            assert(self@ =~= old(self)@.insert(identifier, epoch@));
            lemma_below_insert(old(self)@, identifier, epoch@, epoch_id_limit());
        }
    }

    /// The largest id in the ledger.
    pub fn get_current_epoch(&self) -> (identifier: EpochId)
        requires
            self.has_epochs(),
        ensures
            is_latest(self@.dom(), identifier),
            identifier == latest(self@.dom()),
    {
        proof {
            self.lemma_finite();
            assert(self@.dom() =~= self.epochs@.dom());
        }
        let current = last_epoch_id(&self.epochs);
        let identifier = current.unwrap();
        proof {
            lemma_latest_is_unique(self@.dom(), identifier);
        }
        identifier
    }

    /// A copy of the epoch under `identifier`, which later changes of the
    /// ledger do not reach.
    pub fn get_epoch(&self, identifier: EpochId) -> (epoch: Epoch<OpType>) where OpType: Clone
        requires
            self@.contains_key(identifier),
        ensures
            epoch_copied(self@[identifier], epoch@),
    {
        proof {
            assert(self@.dom() =~= self.epochs@.dom());
        }
        self.epochs.get(&identifier).unwrap().clone()
    }

    /// How many transactions the epochs hold together.
    pub fn num_transactions(&self) -> (n: usize)
        requires
            self.spec_num_transactions() <= usize::MAX,
        ensures
            n == self.spec_num_transactions(),
    {
        let ids = sorted_ids(&self.epochs);
        proof {
            self.lemma_finite();
            assert(self@.dom() =~= self.epochs@.dom());
            if ids.len() > 0 {
                assert forall|id: EpochId| 0 <= id < ids[0] implies !self@.contains_key(id) by {
                    if self@.contains_key(id) {
                        let k = choose|k: int| 0 <= k < ids.len() && ids[k] == id;
                        assert(ids[0] <= ids[k]);
                    }
                }
                lemma_below_skips(self@, 0, ids[0] as nat);
            } else {
                assert(self@.dom() =~= Set::empty());
                lemma_below_skips(self@, 0, epoch_id_limit());
            }
        }
        let mut result: usize = 0;
        let mut i: usize = 0;
        while i < ids.len()
            invariant
                i <= ids.len(),
                strictly_increasing(ids@),
                ids@.to_set() == self@.dom(),
                self.spec_num_transactions() <= usize::MAX,
                i < ids.len() ==> result == transactions_below(self@, ids[i as int] as nat),
                i == ids.len() ==> result == self.spec_num_transactions(),
                self@.dom() == self.epochs@.dom(),
            decreases ids.len() - i,
        {
            let id = ids[i];
            proof {
                assert(ids@.contains(id));
            }
            let epoch = self.epochs.get(&id).unwrap();
            proof {
                let next: nat = if i + 1 < ids.len() {
                    ids[i + 1] as nat
                } else {
                    epoch_id_limit()
                };
                assert forall|other: EpochId| id < other < next implies !self@.contains_key(
                    other,
                ) by {
                    if self@.contains_key(other) {
                        let k = choose|k: int| 0 <= k < ids.len() && ids[k] == other;
                        if k <= i {
                            assert(ids[k] <= ids[i as int]);
                        } else if k > i + 1 {
                            assert(ids[i + 1] < ids[k]);
                        }
                    }
                }
                lemma_below_skips(self@, (id + 1) as nat, next);
                lemma_below_grows(self@, next, epoch_id_limit());
                assert(epoch@ == self@[id]);
            }
            result = result + epoch.size();
            i += 1;
        }
        result
    }

    /// Whether the ids are anything but `0, 1, 2, ...` without a hole.
    pub fn has_gaps(&self) -> (gaps: bool)
        ensures
            gaps == !no_gaps(self@.dom()),
    {
        let ids = sorted_ids(&self.epochs);
        proof {
            assert(self@.dom() =~= self.epochs@.dom());
        }
        let mut pos: usize = 0;
        while pos < ids.len()
            invariant
                pos <= ids.len(),
                strictly_increasing(ids@),
                ids@.to_set() == self@.dom(),
                ids@.len() == self@.dom().len(),
                forall|k: int| 0 <= k < pos ==> ids[k] == k,
            decreases ids.len() - pos,
        {
            let expected = pos;
            let key = ids[pos] as usize;
            if expected != key {
                proof {
                    if pos > 0 {
                        assert(ids[pos - 1] < ids[pos as int]);
                    }
                    if self@.dom().contains(pos as EpochId) {
                        let k = choose|k: int| 0 <= k < ids.len() && ids[k] == pos as EpochId;
                        if k < pos {
                        } else if k > pos {
                            assert(ids[pos as int] < ids[k]);
                        }
                    }
                }
                return true;
            }
            pos += 1;
        }
        proof {
            assert forall|id: EpochId| self@.dom().contains(id) <==> id < self@.dom().len() by {
                if id < ids.len() {
                    assert(ids[id as int] == id);
                    assert(ids@.contains(id));
                }
                if self@.dom().contains(id) {
                    let k = choose|k: int| 0 <= k < ids.len() && ids[k] == id;
                }
            }
        }
        false
    }
}

} // verus!
