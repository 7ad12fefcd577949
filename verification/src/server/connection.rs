//! One peer's connection: what may come in over it, and what becomes of it.

use vstd::prelude::*;

use crate::framing::{
    encode_frame, first_frame, frame_of, FrameDecoder, FrameError, FrameStatus, HEADER_BYTES,
    MAX_FRAME_BYTES,
};
use crate::protocol::Message;
use crate::server::ledger_wrapper::LedgerWrapper;
use crate::transactions::Transaction;

verus! {

/// What the embedding application has to say about submitted transactions.
pub trait Callback<OpType> {
    /// Whether the ledger is to take `tx`.
    fn validate_transaction(&self, tx: &Transaction<OpType>) -> bool;

    /// Is told of each transaction that passed the validation, before the
    /// ledger takes it.
    fn notify_new_transaction(&self, tx: &Transaction<OpType>);
}

/// The callback that takes every transaction and does nothing else.
pub struct NullCallback {}

impl<OpType> Callback<OpType> for NullCallback {
    fn validate_transaction(&self, _tx: &Transaction<OpType>) -> (valid: bool)
        ensures
            valid,
    {
        true
    }

    fn notify_new_transaction(&self, _tx: &Transaction<OpType>) {
    }
}

/// Why a connection was given up.
#[derive(Debug, Clone, Copy, PartialEq, Eq, Structural)]
pub enum ProtocolError {
    /// The peer sent a message that only the server may send.
    UnexpectedMessage,
}

/// What the read loop met.
pub enum ReadEvent<OpType> {
    /// A message arrived whole and decoded.
    Received(Message<OpType>),
    /// A frame or its payload could not be decoded, the socket failed, or
    /// the peer closed it.
    Failed,
}

/// What the read loop is to do next.
pub enum Step<OpType> {
    /// Hand the transaction to the ledger, then read on.
    Submit(Transaction<OpType>),
    /// Read on: the transaction was discarded.
    Skip,
    /// Stop reading: the connection has ended.
    Stop,
}

/// The reading half of a connection: the bytes that arrived and wait to be
/// decoded, and whether the read loop still runs.
pub struct PeerReadSocket {
    incoming: FrameDecoder,
    open: bool,
}

impl PeerReadSocket {
    /// The bytes that arrived and belong to no frame handed out yet.
    pub closed spec fn pending(&self) -> Seq<u8> {
        self.incoming@
    }

    /// Whether the read loop still runs.
    pub closed spec fn is_open(&self) -> bool {
        self.open
    }

    /// Whether the read loop still runs.
    pub fn active(&self) -> (open: bool)
        ensures
            open == self.is_open(),
    {
        self.open
    }

    /// Takes `bytes` as they came from the socket.
    pub fn receive(&mut self, bytes: &[u8])
        ensures
            final(self).pending() == old(self).pending() + bytes@,
            final(self).is_open() == old(self).is_open(),
    {
        self.incoming.feed(bytes);
    }

    /// Hands out the payload of the next frame, where a whole frame has
    /// arrived.
    pub fn next_frame(&mut self) -> (outcome: Result<Option<Vec<u8>>, FrameError>)
        ensures
            final(self).is_open() == old(self).is_open(),
            match first_frame(old(self).pending()) {
                FrameStatus::Incomplete => {
                    &&& outcome == Ok::<Option<Vec<u8>>, FrameError>(None)
                    &&& final(self).pending() == old(self).pending()
                },
                FrameStatus::TooLong => {
                    &&& outcome == Err::<Option<Vec<u8>>, FrameError>(FrameError::TooLong)
                    &&& final(self).pending() == old(self).pending()
                },
                FrameStatus::Whole { payload } => {
                    &&& outcome matches Ok(Some(bytes)) && bytes@ == payload
                    &&& final(self).pending() == old(self).pending().skip(
                        HEADER_BYTES + payload.len(),
                    )
                },
            },
    {
        self.incoming.next_frame()
    }
}

/// A peer's connection, as the server knows it.
#[derive(Debug)]
pub struct PeerConnection {
    identifier: u32,
}

impl PeerConnection {
    /// The id under which the peer is registered.
    pub closed spec fn id(&self) -> u32 {
        self.identifier
    }

    /// The connection with the id `identifier`, and its reading half: open,
    /// with nothing received.
    pub fn new(identifier: u32) -> (halves: (PeerConnection, PeerReadSocket))
        ensures
            halves.0.id() == identifier,
            halves.1.is_open(),
            halves.1.pending() == Seq::<u8>::empty(),
    {
        (PeerConnection { identifier }, PeerReadSocket { incoming: FrameDecoder::new(), open: true })
    }

    /// The id under which the peer is registered.
    pub fn identifier(&self) -> (identifier: u32)
        ensures
            identifier == self.id(),
    {
        self.identifier
    }

    /// What becomes of a submitted transaction once the application has
    /// judged it: it goes on to the ledger if it is valid, and is dropped
    /// if it is not.
    pub fn judged<OpType>(transaction: Transaction<OpType>, valid: bool) -> (kept: Option<
        Transaction<OpType>,
    >)
        ensures
            kept == if valid {
                Some(transaction)
            } else {
                None
            },
    {
        if valid {
            Some(transaction)
        } else {
            None
        }
    }

    /// Deals with a message from the peer. A submitted transaction is put
    /// before `callback`: if it is valid, the callback is told of it and it
    /// comes back, to be handed to the ledger; if not, nothing comes back.
    /// Any other message is one that a peer may not send.
    pub fn handle_message<OpType, C: Callback<OpType>>(
        &self,
        callback: &C,
        msg: Message<OpType>,
    ) -> (outcome: Result<Option<Transaction<OpType>>, ProtocolError>)
        ensures
            msg@.from_peer() <==> outcome is Ok,
            outcome matches Ok(Some(transaction)) ==> msg == (Message::TransactionRequest {
                transaction,
            }),
            outcome matches Err(error) ==> error == ProtocolError::UnexpectedMessage,
    {
        match msg {
            Message::TransactionRequest { transaction } => {
                let valid = callback.validate_transaction(&transaction);
                if valid {
                    callback.notify_new_transaction(&transaction);
                }
                Ok(Self::judged(transaction, valid))
            },
            _ => Err(ProtocolError::UnexpectedMessage),
        }
    }

    /// One turn of the read loop. On a message that a peer may send, the
    /// loop goes on. On anything else the connection ends: its reading half
    /// closes, and the peer leaves the registry of `ledger`. A connection
    /// that has ended stays so.
    pub fn run<OpType, Peer, C: Callback<OpType>>(
        &self,
        socket: &mut PeerReadSocket,
        ledger: &mut LedgerWrapper<OpType, Peer>,
        callback: &C,
        event: ReadEvent<OpType>,
    ) -> (step: Step<OpType>)
        requires
            old(ledger).wf(),
        ensures
            final(ledger).wf(),
            final(socket).pending() == old(socket).pending(),
            step is Stop <==> !old(socket).is_open() || !(event matches ReadEvent::Received(msg)
                && msg@.from_peer()),
            step is Stop ==> {
                &&& !final(socket).is_open()
                &&& final(ledger)@ == old(ledger)@.unregistered(self.id())
            },
            !(step is Stop) ==> {
                &&& final(socket).is_open()
                &&& final(ledger)@ == old(ledger)@
            },
            step matches Step::Submit(transaction) ==> event == ReadEvent::Received(
                Message::TransactionRequest { transaction },
            ),
    {
        if socket.open {
            if let ReadEvent::Received(msg) = event {
                if let Ok(kept) = self.handle_message(callback, msg) {
                    return match kept {
                        Some(transaction) => Step::Submit(transaction),
                        None => Step::Skip,
                    };
                }
            }
        }
        socket.open = false;
        ledger.unregister_peer(self.identifier);
        Step::Stop
    }

    /// Frames `encoded_message`, the wire encoding of a message, for the
    /// peer: the bytes to write to its socket.
    pub fn send(&self, encoded_message: &[u8]) -> (frame: Result<Vec<u8>, FrameError>)
        ensures
            encoded_message@.len() <= MAX_FRAME_BYTES ==> (frame matches Ok(bytes) && bytes@
                == frame_of(encoded_message@)),
            encoded_message@.len() > MAX_FRAME_BYTES ==> frame == Err::<Vec<u8>, FrameError>(
                FrameError::TooLong,
            ),
    {
        encode_frame(encoded_message)
    }
}

} // verus!
