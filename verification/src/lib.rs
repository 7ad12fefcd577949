//! A simulated permissioned ledger network: a ledger of timestamped epochs,
//! the server-side policy around it, and the framed peer protocol.

use vstd::prelude::*;

pub mod crypto_helper;
pub mod framing;
pub mod ledger;
pub mod ledger_laws;
pub mod protocol;
pub mod server;
pub mod transactions;

pub use crypto_helper::{
    generate_key_pair, generate_key_pair_with_bits, to_account_id, AccountId, CryptoError,
    PrivateKey, PublicKey, PublicKeyView,
};
pub use protocol::{Message, MessageView};
pub use ledger::{Epoch, EpochId, EpochView, Identity, Ledger};
pub use transactions::{Transaction, TransactionView, TxPayload, TxPayloadView};

verus! {

/// The port on which the server listens unless told otherwise.
pub const DEFAULT_BLOCKCHAIN_PORT: u16 = 8080;

/// An operation that carries nothing, for trying the ledger out.
#[derive(Debug, Clone, Copy, PartialEq, Eq, Structural)]
pub enum TestOperation {
    Empty {  },
}

} // verus!
