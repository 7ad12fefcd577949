//! Signed transactions and what they carry.

use vstd::prelude::*;

use crate::crypto_helper::{
    account_id_of, clone_bytes, sha512, sign, to_account_id, AccountId, CryptoError, PrivateKey,
    PublicKey, PublicKeyView,
};

verus! {

/// What a transaction asks for.
#[derive(Debug)]
pub enum TxPayload<OpType> {
    /// Registers the account that owns `public_key`.
    CreateAccount { public_key: PublicKey },
    /// An operation of the embedding application.
    Operation { operation: OpType },
}

/// What a [`TxPayload`] stands for in contracts.
pub enum TxPayloadView<OpType> {
    CreateAccount { public_key: PublicKeyView },
    Operation { operation: OpType },
}

impl<OpType> View for TxPayload<OpType> {
    type V = TxPayloadView<OpType>;

    open spec fn view(&self) -> TxPayloadView<OpType> {
        match *self {
            TxPayload::CreateAccount { public_key } => TxPayloadView::CreateAccount {
                public_key: public_key@,
            },
            TxPayload::Operation { operation } => TxPayloadView::Operation { operation },
        }
    }
}

/// Whether `copy` is what cloning `value` may give: the same payload, the
/// operation being one that `OpType::clone` may return for that of `value`.
pub open spec fn payload_copied<OpType: Clone>(
    value: TxPayloadView<OpType>,
    copy: TxPayloadView<OpType>,
) -> bool {
    match (value, copy) {
        (
            TxPayloadView::CreateAccount { public_key: a },
            TxPayloadView::CreateAccount { public_key: b },
        ) => a == b,
        (TxPayloadView::Operation { operation: a }, TxPayloadView::Operation { operation: b }) => {
            cloned::<OpType>(a, b)
        },
        _ => false,
    }
}

impl<OpType: Clone> Clone for TxPayload<OpType> {
    fn clone(&self) -> (copy: TxPayload<OpType>)
        ensures
            payload_copied(self@, copy@),
    {
        match self {
            TxPayload::CreateAccount { public_key } => TxPayload::CreateAccount {
                public_key: public_key.clone(),
            },
            TxPayload::Operation { operation } => TxPayload::Operation {
                operation: operation.clone(),
            },
        }
    }
}

/// An immutable signed envelope: the submitting account, what it asks for,
/// and the signature over that payload.
#[derive(Debug)]
pub struct Transaction<OpType> {
    source: AccountId,
    payload: TxPayload<OpType>,
    signature: Vec<u8>,
}

/// What a [`Transaction`] stands for in contracts.
pub struct TransactionView<OpType> {
    pub source: AccountId,
    pub payload: TxPayloadView<OpType>,
    pub signature: Seq<u8>,
}

impl<OpType> View for Transaction<OpType> {
    type V = TransactionView<OpType>;

    closed spec fn view(&self) -> TransactionView<OpType> {
        TransactionView {
            source: self.source,
            payload: self.payload@,
            signature: self.signature@,
        }
    }
}

/// Whether `copy` is what cloning `value` may give.
pub open spec fn transaction_copied<OpType: Clone>(
    value: TransactionView<OpType>,
    copy: TransactionView<OpType>,
) -> bool {
    &&& copy.source == value.source
    &&& copy.signature == value.signature
    &&& payload_copied(value.payload, copy.payload)
}

impl<OpType: Clone> Clone for Transaction<OpType> {
    fn clone(&self) -> (copy: Transaction<OpType>)
        ensures
            transaction_copied(self@, copy@),
    {
        Transaction {
            source: self.source,
            payload: self.payload.clone(),
            signature: clone_bytes(&self.signature),
        }
    }
}

impl<OpType> Transaction<OpType> {
    /// The transaction that creates the account of `public_key`, signed with
    /// `private_key`. `encoded_payload` is the wire encoding of the payload;
    /// its SHA-512 digest is what gets signed.
    pub fn new_create_account(
        public_key: PublicKey,
        encoded_payload: &[u8],
        private_key: &PrivateKey,
    ) -> (outcome: Result<Transaction<OpType>, CryptoError>)
        ensures
            outcome matches Ok(tx) ==> {
                &&& tx@.source == account_id_of(public_key@)
                &&& tx@.payload == TxPayloadView::<OpType>::CreateAccount {
                    public_key: public_key@,
                }
            },
            outcome matches Err(error) ==> error == CryptoError::Signing,
    {
        let source = to_account_id(&public_key);
        let payload = TxPayload::CreateAccount { public_key };
        let digest = sha512(encoded_payload);
        Transaction::sealed(source, payload, sign(private_key, digest.as_slice()))
    }

    /// The transaction by which `source` asks for `operation`, signed with
    /// `private_key`. `encoded_payload` is the wire encoding of the payload;
    /// its SHA-512 digest is what gets signed.
    pub fn new(
        source: AccountId,
        operation: OpType,
        encoded_payload: &[u8],
        private_key: &PrivateKey,
    ) -> (outcome: Result<Transaction<OpType>, CryptoError>)
        ensures
            outcome matches Ok(tx) ==> {
                &&& tx@.source == source
                &&& tx@.payload == TxPayloadView::Operation { operation }
            },
            outcome matches Err(error) ==> error == CryptoError::Signing,
    {
        let payload = TxPayload::Operation { operation };
        let digest = sha512(encoded_payload);
        Transaction::sealed(source, payload, sign(private_key, digest.as_slice()))
    }

    /// Closes the envelope on what signing gave: the transaction with that
    /// signature where there is one, the error otherwise.
    pub fn sealed(
        source: AccountId,
        payload: TxPayload<OpType>,
        signature: Result<Vec<u8>, CryptoError>,
    ) -> (outcome: Result<Transaction<OpType>, CryptoError>)
        ensures
            match signature {
                Ok(bytes) => outcome matches Ok(tx) && tx@ == (TransactionView {
                    source,
                    payload: payload@,
                    signature: bytes@,
                }),
                Err(error) => outcome == Err::<Transaction<OpType>, CryptoError>(error),
            },
    {
        match signature {
            Ok(bytes) => Ok(Transaction { source, payload, signature: bytes }),
            Err(error) => Err(error),
        }
    }

    /// Puts a transaction together from its three parts.
    pub fn from_parts(source: AccountId, payload: TxPayload<OpType>, signature: Vec<u8>) -> (tx:
        Transaction<OpType>)
        ensures
            tx@ == (TransactionView { source, payload: payload@, signature: signature@ }),
    {
        Transaction { source, payload, signature }
    }

    /// The account that submitted the transaction.
    pub fn get_source(&self) -> (source: &AccountId)
        ensures
            *source == self@.source,
    {
        &self.source
    }

    /// What the transaction asks for.
    pub fn get_payload(&self) -> (payload: &TxPayload<OpType>)
        ensures
            payload@ == self@.payload,
    {
        &self.payload
    }

    /// The signature over the payload.
    pub fn get_signature(&self) -> (signature: &Vec<u8>)
        ensures
            signature@ == self@.signature,
    {
        &self.signature
    }

    /// Gives up the envelope and keeps what it asked for.
    pub fn into_payload(self) -> (payload: TxPayload<OpType>)
        ensures
            payload@ == self@.payload,
    {
        self.payload
    }
}

} // verus!
