//! The messages that server and peers exchange.

use vstd::prelude::*;

use crate::ledger::{epoch_copied, Epoch, EpochId, EpochView};
use crate::transactions::{transaction_copied, Transaction, TransactionView};

verus! {

/// One message of the protocol.
#[derive(Debug)]
pub enum Message<OpType> {
    /// A whole epoch, sent to a peer that joins.
    SyncEpoch { identifier: EpochId, epoch: Epoch<OpType> },
    /// A new epoch has started.
    NewEpochStarted { identifier: EpochId, timestamp: i64 },
    /// A transaction was added to the ledger.
    LedgerUpdate { transaction: Transaction<OpType> },
    /// A peer submits a transaction.
    TransactionRequest { transaction: Transaction<OpType> },
}

/// What a [`Message`] stands for in contracts.
pub enum MessageView<OpType> {
    SyncEpoch { identifier: EpochId, epoch: EpochView<OpType> },
    NewEpochStarted { identifier: EpochId, timestamp: i64 },
    LedgerUpdate { transaction: TransactionView<OpType> },
    TransactionRequest { transaction: TransactionView<OpType> },
}

impl<OpType> View for Message<OpType> {
    type V = MessageView<OpType>;

    open spec fn view(&self) -> MessageView<OpType> {
        match *self {
            Message::SyncEpoch { identifier, epoch } => MessageView::SyncEpoch {
                identifier,
                epoch: epoch@,
            },
            Message::NewEpochStarted { identifier, timestamp } => MessageView::NewEpochStarted {
                identifier,
                timestamp,
            },
            Message::LedgerUpdate { transaction } => MessageView::LedgerUpdate {
                transaction: transaction@,
            },
            Message::TransactionRequest { transaction } => MessageView::TransactionRequest {
                transaction: transaction@,
            },
        }
    }
}

/// Whether `copy` is what cloning `value` may give.
pub open spec fn message_copied<OpType: Clone>(
    value: MessageView<OpType>,
    copy: MessageView<OpType>,
) -> bool {
    match (value, copy) {
        (
            MessageView::SyncEpoch { identifier: a, epoch: e },
            MessageView::SyncEpoch { identifier: b, epoch: f },
        ) => a == b && epoch_copied(e, f),
        (
            MessageView::NewEpochStarted { identifier: a, timestamp: s },
            MessageView::NewEpochStarted { identifier: b, timestamp: t },
        ) => a == b && s == t,
        (
            MessageView::LedgerUpdate { transaction: a },
            MessageView::LedgerUpdate { transaction: b },
        ) => transaction_copied(a, b),
        (
            MessageView::TransactionRequest { transaction: a },
            MessageView::TransactionRequest { transaction: b },
        ) => transaction_copied(a, b),
        _ => false,
    }
}

impl<OpType: Clone> Clone for Message<OpType> {
    fn clone(&self) -> (copy: Message<OpType>)
        ensures
            message_copied(self@, copy@),
    {
        match self {
            Message::SyncEpoch { identifier, epoch } => Message::SyncEpoch {
                identifier: *identifier,
                epoch: epoch.clone(),
            },
            Message::NewEpochStarted { identifier, timestamp } => Message::NewEpochStarted {
                identifier: *identifier,
                timestamp: *timestamp,
            },
            Message::LedgerUpdate { transaction } => Message::LedgerUpdate {
                transaction: transaction.clone(),
            },
            Message::TransactionRequest { transaction } => Message::TransactionRequest {
                transaction: transaction.clone(),
            },
        }
    }
}

impl<OpType> MessageView<OpType> {
    /// Whether a peer may send the message: peers submit transactions, and
    /// every other message goes from the server to the peers.
    pub open spec fn from_peer(self) -> bool {
        self is TransactionRequest
    }
}

impl<OpType> Message<OpType> {
    /// Whether a peer may send the message.
    pub fn is_from_peer(&self) -> (from_peer: bool)
        ensures
            from_peer == self@.from_peer(),
    {
        match self {
            Message::TransactionRequest { .. } => true,
            _ => false,
        }
    }
}

} // verus!
