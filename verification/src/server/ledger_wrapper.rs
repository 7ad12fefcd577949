//! The ledger as the server runs it: with the registry of peers, the
//! throttle on what is accepted, the rotation of epochs, and what is to be
//! sent to whom.

use std::collections::HashMap;
use vstd::prelude::*;

use crate::ledger::{
    after_call, epoch_copied, epoch_id_limit, is_latest, lemma_latest_is_unique, Epoch, EpochId,
    EpochView, Ledger, LedgerCall,
};
use crate::protocol::{Message, MessageView};
use crate::transactions::{transaction_copied, Transaction, TransactionView};

verus! {

/// A point on the machine's monotonic clock.
#[verifier::external_type_specification]
#[verifier::external_body]
pub struct ExInstant(std::time::Instant);

/// Reads the monotonic clock with `std::time::Instant::now`.
#[verifier::external_body]
fn clock_start() -> (origin: std::time::Instant) {
    std::time::Instant::now()
}

/// The time that has passed since `origin`, by
/// `std::time::Instant::elapsed`.
#[verifier::external_body]
fn clock_elapsed(origin: &std::time::Instant) -> (elapsed: std::time::Duration) {
    origin.elapsed()
}

/// The whole nanoseconds in `span`, by `std::time::Duration::as_nanos`.
#[verifier::external_body]
fn span_nanos(span: &std::time::Duration) -> (nanos: u128) {
    span.as_nanos()
}

/// The seconds since the Unix epoch by `chrono::Utc::now` and
/// `DateTime::timestamp`. It reads the system clock, which chrono takes to
/// stand after the Unix epoch.
#[verifier::external_body]
fn unix_timestamp() -> (seconds: i64) {
    chrono::offset::Utc::now().timestamp()
}

/// What the wrapper's clock shows when `elapsed` nanoseconds have passed:
/// that number, and the largest that the clock can show where more have
/// passed.
pub open spec fn shown_nanos(elapsed: u128) -> u64 {
    if elapsed > u64::MAX {
        u64::MAX
    } else {
        elapsed as u64
    }
}

/// What the wrapper's clock shows when `elapsed` nanoseconds have passed.
pub fn clock_reading(elapsed: u128) -> (nanos: u64)
    ensures
        nanos == shown_nanos(elapsed),
{
    if elapsed > u64::MAX as u128 {
        u64::MAX
    } else {
        elapsed as u64
    }
}

/// What the server is to send after a change of the ledger.
pub struct Broadcast<OpType, Peer> {
    /// How many milliseconds to let pass before sending.
    pub delay_ms: u64,
    /// What to send.
    pub message: Message<OpType>,
    /// To whom: the peers that were registered when the ledger changed.
    pub recipients: HashMap<u32, Peer>,
}

/// What a [`LedgerWrapper`] stands for in contracts.
pub struct LedgerWrapperView<OpType, Peer> {
    /// The epochs of the ledger.
    pub ledger: Map<EpochId, EpochView<OpType>>,
    /// The registered peers by the id of their connection.
    pub peers: Map<u32, Peer>,
    /// The least number of nanoseconds between two acceptances.
    pub min_interval: nat,
    /// The milliseconds between an acceptance and its broadcast.
    pub latency: nat,
    /// When the last transaction was accepted, in nanoseconds on the
    /// wrapper's clock.
    pub last_accepted: nat,
    /// The id that the next epoch gets.
    pub next_epoch_id: nat,
}

impl<OpType, Peer> LedgerWrapperView<OpType, Peer> {
    /// The epochs are those with the ids handed out so far.
    pub open spec fn wf(self) -> bool {
        &&& self.next_epoch_id <= epoch_id_limit()
        &&& forall|id: EpochId| self.ledger.contains_key(id) <==> id < self.next_epoch_id
    }

    /// After the peer `peer` has registered under `identifier`.
    pub open spec fn registered(self, identifier: u32, peer: Peer) -> Self {
        LedgerWrapperView { peers: self.peers.insert(identifier, peer), ..self }
    }

    /// After the peer under `identifier` has left.
    pub open spec fn unregistered(self, identifier: u32) -> Self {
        LedgerWrapperView { peers: self.peers.remove(identifier), ..self }
    }

    /// When a transaction that arrives at `now` is accepted: at once, unless
    /// the last acceptance is less than the minimum interval ago, and then
    /// when that interval is over.
    pub open spec fn acceptance_time(self, now: nat) -> nat {
        if now >= self.last_accepted + self.min_interval {
            now
        } else {
            self.last_accepted + self.min_interval
        }
    }

    /// After a transaction that arrived at `now` has passed the throttle.
    pub open spec fn throttled(self, now: nat) -> Self {
        LedgerWrapperView { last_accepted: self.acceptance_time(now), ..self }
    }

    /// After `transaction` has been appended to the current epoch.
    pub open spec fn inserted(self, transaction: TransactionView<OpType>) -> Self {
        LedgerWrapperView {
            ledger: after_call(self.ledger, LedgerCall::Insert { transaction }),
            ..self
        }
    }

    /// The peers that a broadcast made now goes to.
    pub open spec fn recipients(self) -> Map<u32, Peer> {
        self.peers
    }

    /// Whether the backlog that a peer joining now is sent holds the epoch
    /// under `identifier`.
    pub open spec fn in_backlog(self, identifier: EpochId) -> bool {
        identifier < self.next_epoch_id
    }

    /// After an epoch has started at `timestamp`.
    pub open spec fn rotated(self, timestamp: i64) -> Self {
        LedgerWrapperView {
            ledger: after_call(
                self.ledger,
                LedgerCall::CreateNewEpoch { identifier: self.next_epoch_id as EpochId, timestamp },
            ),
            next_epoch_id: self.next_epoch_id + 1,
            ..self
        }
    }

}

/// Whether `message` brings a copy of `epoch` under `identifier`.
pub open spec fn brings_copy<OpType: Clone>(
    message: MessageView<OpType>,
    identifier: EpochId,
    epoch: EpochView<OpType>,
) -> bool {
    match message {
        MessageView::SyncEpoch { identifier: sent_under, epoch: sent } => {
            sent_under == identifier && epoch_copied(epoch, sent)
        },
        _ => false,
    }
}

/// Whether `backlog` is what a peer that joins is sent first: one message
/// for each of the `count` epochs of `ledger`, in the order of the ids, with
/// a copy of the epoch.
pub open spec fn is_backlog<OpType: Clone>(
    backlog: Seq<MessageView<OpType>>,
    ledger: Map<EpochId, EpochView<OpType>>,
    count: nat,
) -> bool {
    &&& backlog.len() == count
    &&& forall|i: int|
        0 <= i < count ==> brings_copy(#[trigger] backlog[i], i as EpochId, ledger[i as EpochId])
}

/// The ledger with the server's policy around it.
pub struct LedgerWrapper<OpType, Peer> {
    ledger: Ledger<OpType>,
    peers: HashMap<u32, Peer>,
    min_interval: u64,
    latency: u64,
    last_tx: u64,
    next_epoch_id: u64,
    clock: std::time::Instant,
}

impl<OpType, Peer> View for LedgerWrapper<OpType, Peer> {
    type V = LedgerWrapperView<OpType, Peer>;

    closed spec fn view(&self) -> LedgerWrapperView<OpType, Peer> {
        LedgerWrapperView {
            ledger: self.ledger@,
            peers: self.peers@,
            min_interval: self.min_interval as nat,
            latency: self.latency as nat,
            last_accepted: self.last_tx as nat,
            next_epoch_id: self.next_epoch_id as nat,
        }
    }
}

impl<OpType, Peer> LedgerWrapper<OpType, Peer> {
    /// The epochs are those with the ids handed out so far.
    pub open spec fn wf(&self) -> bool {
        self@.wf()
    }

    /// Whether the clock has room for one more acceptance: the end of the
    /// minimum interval after the last one is a time that it can show.
    pub open spec fn clock_has_room(&self) -> bool {
        self@.last_accepted + self@.min_interval <= u64::MAX
    }

    /// Whether an epoch id is left for one more epoch.
    pub open spec fn epoch_ids_left(&self) -> bool {
        self@.next_epoch_id < epoch_id_limit()
    }

    /// A wrapper round an empty ledger, with no peer, that lets
    /// `min_interval_nanos` nanoseconds pass between two acceptances and
    /// `latency_ms` milliseconds between an acceptance and its broadcast.
    /// Its clock starts now, and counts as the last acceptance.
    pub fn new(min_interval_nanos: u64, latency_ms: u32) -> (wrapper: LedgerWrapper<OpType, Peer>)
        ensures
            wrapper.wf(),
            wrapper@ == (LedgerWrapperView::<OpType, Peer> {
                ledger: Map::empty(),
                peers: Map::empty(),
                min_interval: min_interval_nanos as nat,
                latency: latency_ms as nat,
                last_accepted: 0,
                next_epoch_id: 0,
            }),
    {
        LedgerWrapper {
            ledger: Ledger::default(),
            peers: HashMap::new(),
            min_interval: min_interval_nanos,
            latency: latency_ms as u64,
            last_tx: 0,
            next_epoch_id: 0,
            clock: clock_start(),
        }
    }

    /// Takes `peer` into the registry under `identifier`, and gives what it
    /// is to be sent before anything else: every epoch so far, in the order
    /// of the ids.
    pub fn register_peer(&mut self, identifier: u32, peer: Peer) -> (backlog: Vec<
        Message<OpType>,
    >) where OpType: Clone
        requires
            old(self).wf(),
        ensures
            final(self).wf(),
            final(self)@ == old(self)@.registered(identifier, peer),
            is_backlog(
                backlog@.map_values(|message: Message<OpType>| message@),
                old(self)@.ledger,
                old(self)@.next_epoch_id,
            ),
    {
        let mut backlog: Vec<Message<OpType>> = Vec::new();
        let mut next: u64 = 0;
        while next < self.next_epoch_id
            invariant
                self.wf(),
                *self == *old(self),
                next <= self.next_epoch_id,
                is_backlog(
                    backlog@.map_values(|message: Message<OpType>| message@),
                    self@.ledger,
                    next as nat,
                ),
            decreases self.next_epoch_id - next,
        {
            let identifier = next as EpochId;
            let epoch = self.ledger.get_epoch(identifier);
            let ghost sent = backlog@.map_values(|message: Message<OpType>| message@);
            backlog.push(Message::SyncEpoch { identifier, epoch });
            next += 1;
            proof {
                let now = backlog@.map_values(|message: Message<OpType>| message@);
                assert forall|i: int| 0 <= i < next implies brings_copy(
                    #[trigger] now[i],
                    i as EpochId,
                    self@.ledger[i as EpochId],
                ) by {
                    if i < next - 1 {
                        assert(now[i] == sent[i]);
                    }
                }
            }
        }
        self.peers.insert(identifier, peer);
        backlog
    }

    /// Takes the peer under `identifier` out of the registry.
    pub fn unregister_peer(&mut self, identifier: u32)
        requires
            old(self).wf(),
        ensures
            final(self).wf(),
            final(self)@ == old(self)@.unregistered(identifier),
    {
        self.peers.remove(&identifier);
    }

    /// How many epochs the ledger holds.
    pub fn num_epochs(&self) -> (n: usize)
        ensures
            n == self@.ledger.dom().len(),
    {
        self.ledger.num_epochs()
    }

    /// A copy of the epoch under `identifier`.
    pub fn get_epoch(&self, identifier: EpochId) -> (epoch: Epoch<OpType>) where OpType: Clone
        requires
            self@.ledger.contains_key(identifier),
        ensures
            epoch_copied(self@.ledger[identifier], epoch@),
    {
        self.ledger.get_epoch(identifier)
    }
    /// Whether the clock has room for one more acceptance.
    pub fn can_throttle(&self) -> (room: bool)
        ensures
            room == self.clock_has_room(),
    {
        self.last_tx <= u64::MAX - self.min_interval
    }

    /// Whether an epoch id is left for one more epoch.
    pub fn can_start_epoch(&self) -> (left: bool)
        ensures
            left == self.epoch_ids_left(),
    {
        self.next_epoch_id < 0x1_0000_0000
    }

    /// The wrapper's clock: the nanoseconds since the wrapper was made, as
    /// [`clock_reading`] shows them.
    pub fn now(&self) -> (nanos: u64) {
        let span = clock_elapsed(&self.clock);
        clock_reading(span_nanos(&span))
    }

    /// Lets a transaction that arrived at `now` pass the throttle, and says
    /// how many nanoseconds its submitter has to wait until it is accepted.
    pub fn throttle_at(&mut self, now: u64) -> (wait: u64)
        requires
            old(self).wf(),
            old(self).clock_has_room(),
        ensures
            final(self).wf(),
            final(self)@ == old(self)@.throttled(now as nat),
            wait == old(self)@.acceptance_time(now as nat) - now,
    {
        let earliest = self.last_tx + self.min_interval;
        let wait = if now >= earliest {
            self.last_tx = now;
            0
        } else {
            self.last_tx = earliest;
            earliest - now
        };
        assert(self@.ledger == old(self)@.ledger);
        wait
    }

    /// Lets a transaction that arrives now, by the wrapper's clock, pass the
    /// throttle, and says how many nanoseconds its submitter has to wait
    /// until it is accepted.
    pub fn throttle(&mut self) -> (wait: u64)
        requires
            old(self).wf(),
            old(self).clock_has_room(),
        ensures
            final(self).wf(),
            exists|now: u64|
                {
                    &&& final(self)@ == old(self)@.throttled(now as nat)
                    &&& wait == #[trigger] old(self)@.acceptance_time(now as nat) - now
                },
    {
        let now = self.now();
        self.throttle_at(now)
    }

    /// Appends `transaction` to the current epoch, and gives the broadcast
    /// that tells the registered peers of it once the latency has passed.
    pub fn insert(&mut self, transaction: Transaction<OpType>) -> (broadcast: Broadcast<
        OpType,
        Peer,
    >) where OpType: Clone, Peer: Clone
        requires
            old(self).wf(),
            old(self)@.next_epoch_id > 0,
        ensures
            final(self).wf(),
            final(self)@ == old(self)@.inserted(transaction@),
            is_latest(old(self)@.ledger.dom(), (old(self)@.next_epoch_id - 1) as EpochId),
            broadcast.delay_ms == old(self)@.latency,
            broadcast.recipients@ == old(self)@.recipients(),
            broadcast.message@ matches MessageView::LedgerUpdate { transaction: sent }
                && transaction_copied(transaction@, sent),
    {
        proof {
            let current = (self@.next_epoch_id - 1) as EpochId;
            assert(self@.ledger.contains_key(current));
            assert(is_latest(self@.ledger.dom(), current));
            lemma_latest_is_unique(self@.ledger.dom(), current);
            self.ledger.lemma_finite();
            assert(self@.ledger.dom().len() > 0) by {
                if self@.ledger.dom().len() == 0 {
                    assert(self@.ledger.dom() =~= Set::empty());
                }
            }
        }
        let message = Message::LedgerUpdate { transaction: transaction.clone() };
        self.ledger.insert(transaction);
        Broadcast { delay_ms: self.latency, message, recipients: self.peers.clone() }
    }

    /// Starts the next epoch at `timestamp`, and gives the broadcast that
    /// tells the registered peers of it at once.
    pub fn start_new_epoch_at(&mut self, timestamp: i64) -> (broadcast: Broadcast<
        OpType,
        Peer,
    >) where Peer: Clone
        requires
            old(self).wf(),
            old(self).epoch_ids_left(),
        ensures
            final(self).wf(),
            final(self)@ == old(self)@.rotated(timestamp),
            broadcast.delay_ms == 0,
            broadcast.recipients@ == old(self)@.recipients(),
            broadcast.message@ == (MessageView::<OpType>::NewEpochStarted {
                identifier: old(self)@.next_epoch_id as EpochId,
                timestamp,
            }),
    {
        let identifier = self.next_epoch_id as EpochId;
        assert(!self@.ledger.contains_key(identifier));
        self.ledger.create_new_epoch(identifier, timestamp);
        self.next_epoch_id = self.next_epoch_id + 1;
        assert forall|id: EpochId| self@.ledger.contains_key(id) <==> id < self@.next_epoch_id by {
            assert(old(self)@.ledger.contains_key(id) <==> id < old(self)@.next_epoch_id);
        }
        Broadcast {
            delay_ms: 0,
            message: Message::NewEpochStarted { identifier, timestamp },
            recipients: self.peers.clone(),
        }
    }

    /// Starts the next epoch at the present time, in seconds since the Unix
    /// epoch, and gives the broadcast that tells the registered peers of it
    /// at once.
    pub fn start_new_epoch(&mut self) -> (broadcast: Broadcast<OpType, Peer>) where Peer: Clone
        requires
            old(self).wf(),
            old(self).epoch_ids_left(),
        ensures
            final(self).wf(),
            broadcast.delay_ms == 0,
            broadcast.recipients@ == old(self)@.recipients(),
            broadcast.message@ matches MessageView::NewEpochStarted { identifier, timestamp } && {
                &&& identifier == old(self)@.next_epoch_id
                &&& final(self)@ == old(self)@.rotated(timestamp)
            },
    {
        let timestamp = unix_timestamp();
        self.start_new_epoch_at(timestamp)
    }
}

} // verus!
