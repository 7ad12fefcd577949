//! What holds of the server's ledger over whole histories of steps.

use vstd::prelude::*;

use crate::ledger::{
    epoch_id_limit, is_latest, lemma_latest_is_unique, no_gaps, EpochId, EpochView,
};
use crate::ledger_laws::lemma_ids_below;
use crate::server::ledger_wrapper::LedgerWrapperView;
use crate::transactions::TransactionView;

verus! {

/// A ledger that the server runs has no gap: it holds as many epochs as ids
/// were handed out, under the ids from 0 on.
pub proof fn lemma_server_ledger_has_no_gap<OpType, Peer>(state: LedgerWrapperView<OpType, Peer>)
    requires
        state.wf(),
    ensures
        state.ledger.dom().finite(),
        state.ledger.dom().len() == state.next_epoch_id,
        no_gaps(state.ledger.dom()),
{
    lemma_ids_below(state.next_epoch_id);
    assert(state.ledger.dom() =~= Set::<EpochId>::new(|id: EpochId| id < state.next_epoch_id));
}

/// Appending a transaction keeps the epochs under the ids handed out.
pub proof fn lemma_insert_keeps_the_order<OpType, Peer>(
    state: LedgerWrapperView<OpType, Peer>,
    transaction: TransactionView<OpType>,
)
    requires
        state.wf(),
        state.next_epoch_id > 0,
    ensures
        state.inserted(transaction).wf(),
        is_latest(state.ledger.dom(), (state.next_epoch_id - 1) as EpochId),
{
    let current = (state.next_epoch_id - 1) as EpochId;
    assert(state.ledger.contains_key(current));
    assert(is_latest(state.ledger.dom(), current));
    lemma_latest_is_unique(state.ledger.dom(), current);
    let after = state.inserted(transaction);
    assert forall|id: EpochId| after.ledger.contains_key(id) <==> id < after.next_epoch_id by {
        assert(state.ledger.contains_key(id) <==> id < state.next_epoch_id);
    }
}

/// Starting an epoch keeps the epochs under the ids handed out.
pub proof fn lemma_rotation_keeps_the_order<OpType, Peer>(
    state: LedgerWrapperView<OpType, Peer>,
    timestamp: i64,
)
    requires
        state.wf(),
        state.next_epoch_id < epoch_id_limit(),
    ensures
        state.rotated(timestamp).wf(),
        state.rotated(timestamp).ledger[state.next_epoch_id as EpochId] == EpochView::<
            OpType,
        >::empty(timestamp),
{
    let after = state.rotated(timestamp);
    assert forall|id: EpochId| after.ledger.contains_key(id) <==> id < after.next_epoch_id by {
        assert(state.ledger.contains_key(id) <==> id < state.next_epoch_id);
    }
}

/// Whatever the server does keeps the epochs under the ids handed out.
pub proof fn lemma_steps_keep_the_order<OpType, Peer>(
    state: LedgerWrapperView<OpType, Peer>,
    identifier: u32,
    peer: Peer,
    now: nat,
    transaction: TransactionView<OpType>,
    timestamp: i64,
)
    requires
        state.wf(),
    ensures
        state.registered(identifier, peer).wf(),
        state.unregistered(identifier).wf(),
        state.throttled(now).wf(),
        state.next_epoch_id > 0 ==> state.inserted(transaction).wf(),
        state.next_epoch_id < epoch_id_limit() ==> state.rotated(timestamp).wf(),
{
    if state.next_epoch_id > 0 {
        lemma_insert_keeps_the_order(state, transaction);
    }
    if state.next_epoch_id < epoch_id_limit() {
        lemma_rotation_keeps_the_order(state, timestamp);
    }
}

/// Two transactions that pass the throttle one after the other are accepted
/// at least the minimum interval apart, whenever they arrive; and none is
/// accepted before it arrives.
pub proof fn lemma_acceptances_are_spaced<OpType, Peer>(
    state: LedgerWrapperView<OpType, Peer>,
    first_arrival: nat,
    second_arrival: nat,
)
    ensures
        state.acceptance_time(first_arrival) >= first_arrival,
        state.throttled(first_arrival).acceptance_time(second_arrival) >= second_arrival,
        state.throttled(first_arrival).acceptance_time(second_arrival) >= state.acceptance_time(
            first_arrival,
        ) + state.min_interval,
        state.throttled(first_arrival).throttled(second_arrival).last_accepted
            == state.throttled(first_arrival).acceptance_time(second_arrival),
{
}

/// A transaction that arrives when the minimum interval since the last
/// acceptance is over does not wait.
pub proof fn lemma_late_arrival_does_not_wait<OpType, Peer>(
    state: LedgerWrapperView<OpType, Peer>,
    arrival: nat,
)
    requires
        arrival >= state.last_accepted + state.min_interval,
    ensures
        state.acceptance_time(arrival) == arrival,
{
}

/// A peer that joins while an epoch starts learns of that epoch exactly
/// once, whichever of the two comes first. If the peer registers first, its
/// backlog ends before the new epoch, and the notice of the new epoch goes
/// to it among the registered peers. If the epoch starts first, the notice
/// goes to the peers registered before, the joining peer not among them,
/// and its backlog holds the new epoch. Either way the server ends in the
/// same state.
pub proof fn lemma_joining_peer_learns_of_new_epoch_once<OpType, Peer>(
    state: LedgerWrapperView<OpType, Peer>,
    identifier: u32,
    peer: Peer,
    timestamp: i64,
)
    requires
        state.wf(),
        state.next_epoch_id < epoch_id_limit(),
        !state.peers.contains_key(identifier),
    ensures
        ({
            let new_epoch = state.next_epoch_id as EpochId;
            let joined_first = state.registered(identifier, peer);
            let started_first = state.rotated(timestamp);
            &&& !state.in_backlog(new_epoch)
            &&& joined_first.recipients().contains_key(identifier)
            &&& joined_first.recipients()[identifier] == peer
            &&& !state.recipients().contains_key(identifier)
            &&& started_first.in_backlog(new_epoch)
            &&& started_first.ledger[new_epoch] == EpochView::<OpType>::empty(timestamp)
            &&& joined_first.rotated(timestamp) == started_first.registered(identifier, peer)
        }),
{
}

/// A step that changes the server's ledger, with its arguments.
pub enum ServerStep<OpType, Peer> {
    RegisterPeer { identifier: u32, peer: Peer },
    UnregisterPeer { identifier: u32 },
    Throttle { now: nat },
    Insert { transaction: TransactionView<OpType> },
    StartNewEpoch { timestamp: i64 },
}

/// Whether the server may take `step` in `state`: a transaction needs an
/// epoch to land in, and a new epoch needs an id that is left.
pub open spec fn step_allowed<OpType, Peer>(
    state: LedgerWrapperView<OpType, Peer>,
    step: ServerStep<OpType, Peer>,
) -> bool {
    match step {
        ServerStep::Insert { .. } => state.next_epoch_id > 0,
        ServerStep::StartNewEpoch { .. } => state.next_epoch_id < epoch_id_limit(),
        _ => true,
    }
}

/// The state after `step` was taken in `state`.
pub open spec fn after_step<OpType, Peer>(
    state: LedgerWrapperView<OpType, Peer>,
    step: ServerStep<OpType, Peer>,
) -> LedgerWrapperView<OpType, Peer> {
    match step {
        ServerStep::RegisterPeer { identifier, peer } => state.registered(identifier, peer),
        ServerStep::UnregisterPeer { identifier } => state.unregistered(identifier),
        ServerStep::Throttle { now } => state.throttled(now),
        ServerStep::Insert { transaction } => state.inserted(transaction),
        ServerStep::StartNewEpoch { timestamp } => state.rotated(timestamp),
    }
}

/// The state after `steps` were taken from `start`, in their order.
pub open spec fn after_steps<OpType, Peer>(
    start: LedgerWrapperView<OpType, Peer>,
    steps: Seq<ServerStep<OpType, Peer>>,
) -> LedgerWrapperView<OpType, Peer>
    decreases steps.len(),
{
    if steps.len() == 0 {
        start
    } else {
        after_step(after_steps(start, steps.drop_last()), steps.last())
    }
}

/// Whether the server may take each of `steps` in its turn, from `start`.
pub open spec fn steps_allowed<OpType, Peer>(
    start: LedgerWrapperView<OpType, Peer>,
    steps: Seq<ServerStep<OpType, Peer>>,
) -> bool
    decreases steps.len(),
{
    steps.len() > 0 ==> steps_allowed(start, steps.drop_last()) && step_allowed(
        after_steps(start, steps.drop_last()),
        steps.last(),
    )
}

/// The state in which the step at `index` is taken.
pub open spec fn state_before<OpType, Peer>(
    start: LedgerWrapperView<OpType, Peer>,
    steps: Seq<ServerStep<OpType, Peer>>,
    index: int,
) -> LedgerWrapperView<OpType, Peer> {
    after_steps(start, steps.take(index))
}

/// Whether the step at `index` starts the epoch `epoch` and sends the
/// notice of it to the peer registered under `identifier`.
pub open spec fn notifies<OpType, Peer>(
    start: LedgerWrapperView<OpType, Peer>,
    steps: Seq<ServerStep<OpType, Peer>>,
    index: int,
    identifier: u32,
    epoch: EpochId,
) -> bool {
    &&& 0 <= index < steps.len()
    &&& steps[index] is StartNewEpoch
    &&& state_before(start, steps, index).next_epoch_id == epoch
    &&& state_before(start, steps, index).recipients().contains_key(identifier)
}

/// Whether the peer that registers under `identifier` at `index` stays: no
/// later step registers or unregisters that id.
pub open spec fn stays_registered<OpType, Peer>(
    steps: Seq<ServerStep<OpType, Peer>>,
    index: int,
    identifier: u32,
) -> bool {
    &&& 0 <= index < steps.len()
    &&& steps[index] matches ServerStep::RegisterPeer { identifier: joining, .. }
    &&& joining == identifier
    &&& forall|later: int|
        index < later < steps.len() ==> match #[trigger] steps[later] {
            ServerStep::RegisterPeer { identifier: other, .. } => other != identifier,
            ServerStep::UnregisterPeer { identifier: other } => other != identifier,
            _ => true,
        }
}

/// A prefix of steps that the server may take is one that it may take, and
/// the state after one more step is the state after that step.
pub proof fn lemma_steps_unfold<OpType, Peer>(
    start: LedgerWrapperView<OpType, Peer>,
    steps: Seq<ServerStep<OpType, Peer>>,
    index: int,
)
    requires
        steps_allowed(start, steps),
        0 <= index <= steps.len(),
    ensures
        steps_allowed(start, steps.take(index)),
        index < steps.len() ==> {
            &&& step_allowed(state_before(start, steps, index), steps[index])
            &&& state_before(start, steps, index + 1) == after_step(
                state_before(start, steps, index),
                steps[index],
            )
        },
        state_before(start, steps, steps.len() as int) == after_steps(start, steps),
    decreases steps.len() - index,
{
    assert(steps.take(steps.len() as int) =~= steps);
    if index < steps.len() {
        lemma_steps_unfold(start, steps, index + 1);
        let longer = steps.take(index + 1);
        assert(longer.drop_last() =~= steps.take(index));
        assert(longer.last() == steps[index]);
    }
}

/// Every state that the server reaches keeps the epochs under the ids
/// handed out so far.
pub proof fn lemma_every_state_is_in_order<OpType, Peer>(
    start: LedgerWrapperView<OpType, Peer>,
    steps: Seq<ServerStep<OpType, Peer>>,
)
    requires
        start.wf(),
        steps_allowed(start, steps),
    ensures
        after_steps(start, steps).wf(),
        no_gaps(after_steps(start, steps).ledger.dom()),
    decreases steps.len(),
{
    if steps.len() > 0 {
        let before = after_steps(start, steps.drop_last());
        lemma_every_state_is_in_order(start, steps.drop_last());
        match steps.last() {
            ServerStep::RegisterPeer { identifier, peer } => {
                lemma_steps_keep_the_order(
                    before,
                    identifier,
                    peer,
                    0,
                    arbitrary::<TransactionView<OpType>>(),
                    0,
                );
            },
            ServerStep::UnregisterPeer { identifier } => {
                assert(before.unregistered(identifier).wf());
            },
            ServerStep::Throttle { now } => {
                assert(before.throttled(now).wf());
            },
            ServerStep::Insert { transaction } => {
                lemma_insert_keeps_the_order(before, transaction);
            },
            ServerStep::StartNewEpoch { timestamp } => {
                lemma_rotation_keeps_the_order(before, timestamp);
            },
        }
    }
    lemma_server_ledger_has_no_gap(after_steps(start, steps));
}

/// The ids of the epochs are handed out in sequence: the id that the next
/// epoch gets never falls, and each new epoch raises it by one.
pub proof fn lemma_epoch_ids_rise<OpType, Peer>(
    start: LedgerWrapperView<OpType, Peer>,
    steps: Seq<ServerStep<OpType, Peer>>,
    earlier: int,
    later: int,
)
    requires
        steps_allowed(start, steps),
        0 <= earlier <= later <= steps.len(),
    ensures
        state_before(start, steps, earlier).next_epoch_id <= state_before(
            start,
            steps,
            later,
        ).next_epoch_id,
        earlier < later && steps[earlier] is StartNewEpoch ==> state_before(
            start,
            steps,
            earlier,
        ).next_epoch_id < state_before(start, steps, later).next_epoch_id,
    decreases later - earlier,
{
    if earlier < later {
        lemma_steps_unfold(start, steps, earlier);
        lemma_epoch_ids_rise(start, steps, earlier + 1, later);
    }
}

/// Each epoch that the server's ledger holds and did not hold at the start
/// was started by one of the steps.
pub proof fn lemma_each_epoch_was_started<OpType, Peer>(
    start: LedgerWrapperView<OpType, Peer>,
    steps: Seq<ServerStep<OpType, Peer>>,
    epoch: EpochId,
) -> (index: int)
    requires
        steps_allowed(start, steps),
        start.next_epoch_id <= epoch < after_steps(start, steps).next_epoch_id,
    ensures
        0 <= index < steps.len(),
        steps[index] is StartNewEpoch,
        state_before(start, steps, index).next_epoch_id == epoch,
    decreases steps.len(),
{
    let before = steps.drop_last();
    let last = steps.len() - 1;
    lemma_steps_unfold(start, steps, last);
    assert(steps.take(last) =~= before);
    if epoch < after_steps(start, before).next_epoch_id {
        let index = lemma_each_epoch_was_started(start, before, epoch);
        assert(before.take(index) =~= steps.take(index));
        index
    } else {
        last
    }
}

/// The clock of acceptances never runs back, and the minimum interval
/// stays what it was at the start.
pub proof fn lemma_acceptance_time_never_falls<OpType, Peer>(
    start: LedgerWrapperView<OpType, Peer>,
    steps: Seq<ServerStep<OpType, Peer>>,
    earlier: int,
    later: int,
)
    requires
        steps_allowed(start, steps),
        0 <= earlier <= later <= steps.len(),
    ensures
        state_before(start, steps, later).min_interval == start.min_interval,
        state_before(start, steps, earlier).last_accepted <= state_before(
            start,
            steps,
            later,
        ).last_accepted,
    decreases later,
{
    if later > 0 {
        lemma_steps_unfold(start, steps, later - 1);
        if earlier < later {
            lemma_acceptance_time_never_falls(start, steps, earlier, later - 1);
        } else {
            lemma_acceptance_time_never_falls(start, steps, earlier - 1, later - 1);
        }
    } else {
        assert(steps.take(0) =~= Seq::empty());
    }
}

/// Any two transactions that pass the throttle, whatever the server does
/// between them, are accepted at least the minimum interval apart.
pub proof fn lemma_any_two_acceptances_are_spaced<OpType, Peer>(
    start: LedgerWrapperView<OpType, Peer>,
    steps: Seq<ServerStep<OpType, Peer>>,
    first: int,
    second: int,
)
    requires
        steps_allowed(start, steps),
        0 <= first < second < steps.len(),
        steps[first] is Throttle,
        steps[second] is Throttle,
    ensures
        state_before(start, steps, second + 1).last_accepted >= state_before(
            start,
            steps,
            first + 1,
        ).last_accepted + start.min_interval,
{
    lemma_steps_unfold(start, steps, second);
    lemma_acceptance_time_never_falls(start, steps, first + 1, second);
}

/// A peer that registers and stays is in the registry from then on.
pub proof fn lemma_registered_peer_stays<OpType, Peer>(
    start: LedgerWrapperView<OpType, Peer>,
    steps: Seq<ServerStep<OpType, Peer>>,
    index: int,
    identifier: u32,
    later: int,
)
    requires
        steps_allowed(start, steps),
        stays_registered(steps, index, identifier),
        index < later <= steps.len(),
    ensures
        state_before(start, steps, later).recipients().contains_key(identifier),
    decreases later - index,
{
    lemma_steps_unfold(start, steps, later - 1);
    if later - 1 > index {
        lemma_registered_peer_stays(start, steps, index, identifier, later - 1);
        let step = steps[later - 1];
        assert(match step {
            ServerStep::RegisterPeer { identifier: other, .. } => other != identifier,
            ServerStep::UnregisterPeer { identifier: other } => other != identifier,
            _ => true,
        });
    }
}

/// A peer that registers and stays learns of every epoch exactly once. An
/// epoch that had started when the peer registered is in its backlog, and no
/// notice of it follows. An epoch that starts later is not in the backlog,
/// and exactly one step sends the peer the notice of it.
pub proof fn lemma_registered_peer_learns_of_each_epoch_once<OpType, Peer>(
    start: LedgerWrapperView<OpType, Peer>,
    steps: Seq<ServerStep<OpType, Peer>>,
    index: int,
    identifier: u32,
    epoch: EpochId,
)
    requires
        steps_allowed(start, steps),
        stays_registered(steps, index, identifier),
        epoch < after_steps(start, steps).next_epoch_id,
    ensures
        state_before(start, steps, index).in_backlog(epoch) <==> !exists|later: int|
            index < later && notifies(start, steps, later, identifier, epoch),
        forall|one: int, other: int|
            index < one && index < other && notifies(start, steps, one, identifier, epoch)
                && notifies(start, steps, other, identifier, epoch) ==> one == other,
{
    let joined = state_before(start, steps, index);
    lemma_steps_unfold(start, steps, index);
    assert forall|later: int|
        index < later && notifies(start, steps, later, identifier, epoch) implies !joined.in_backlog(
        epoch,
    ) by {
        lemma_epoch_ids_rise(start, steps, index, later);
    }
    if !joined.in_backlog(epoch) {
        lemma_epoch_ids_rise(start, steps, 0, index);
        assert(steps.take(0) =~= Seq::empty());
        let started = lemma_each_epoch_was_started(start, steps, epoch);
        if started < index {
            lemma_epoch_ids_rise(start, steps, started, index);
        }
        lemma_registered_peer_stays(start, steps, index, identifier, started);
        assert(notifies(start, steps, started, identifier, epoch));
    }
    assert forall|one: int, other: int|
        index < one && index < other && notifies(start, steps, one, identifier, epoch)
            && notifies(start, steps, other, identifier, epoch) implies one == other by {
        if one < other {
            lemma_epoch_ids_rise(start, steps, one, other);
        } else if other < one {
            lemma_epoch_ids_rise(start, steps, other, one);
        }
    }
}

} // verus!
