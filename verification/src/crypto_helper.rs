//! Account identities: key material and the account id derived from it.

use rsa::signature::RandomizedSigner;
use rsa::signature::SignatureEncoding;
use rsa::traits::PublicKeyParts;
use sha2::Digest;
use vstd::prelude::*;

verus! {

/// How many bits the modulus of a generated key has unless another size is
/// asked for.
pub const KEY_BITS: usize = 2048;

/// The smallest modulus, in bits, for which a key is generated.
pub const MIN_KEY_BITS: usize = 64;

/// The largest modulus, in bits, for which a key is generated.
pub const MAX_KEY_BITS: usize = 4096;

/// How many bytes a SHA-512 digest has.
pub const DIGEST_BYTES: usize = 64;

/// An RSA private key, as the `rsa` crate holds it.
#[verifier::external_type_specification]
#[verifier::external_body]
pub struct ExRsaPrivateKey(rsa::RsaPrivateKey);

/// Why the `rsa` crate could not make a key.
#[verifier::external_type_specification]
#[verifier::external_body]
pub struct ExRsaError(rsa::errors::Error);

/// Why the `rsa` crate could not sign.
#[verifier::external_type_specification]
#[verifier::external_body]
pub struct ExSignatureError(rsa::signature::Error);

/// The private half of an RSA key pair.
pub type PrivateKey = rsa::RsaPrivateKey;

/// What went wrong with key material.
#[derive(Debug, Clone, Copy, PartialEq, Eq, Structural)]
pub enum CryptoError {
    /// No key pair could be generated.
    KeyGeneration,
    /// The private key could not sign.
    Signing,
}

/// Identifies an account: the leading eight bytes of the SHA-512 digest of
/// the account's public key, read as an unsigned integer.
pub type AccountId = u64;

/// The public half of an RSA key pair, held as the big-endian bytes of its
/// modulus and of its public exponent.
#[derive(Debug)]
pub struct PublicKey {
    modulus: Vec<u8>,
    exponent: Vec<u8>,
}

/// What a [`PublicKey`] stands for in contracts.
pub struct PublicKeyView {
    pub modulus: Seq<u8>,
    pub exponent: Seq<u8>,
}

impl View for PublicKey {
    type V = PublicKeyView;

    closed spec fn view(&self) -> PublicKeyView {
        PublicKeyView { modulus: self.modulus@, exponent: self.exponent@ }
    }
}

impl PublicKey {
    /// Builds a public key from the big-endian bytes of its two numbers.
    pub fn from_parts(modulus: Vec<u8>, exponent: Vec<u8>) -> (key: PublicKey)
        ensures
            key@.modulus == modulus@,
            key@.exponent == exponent@,
    {
        PublicKey { modulus, exponent }
    }

    /// The big-endian bytes of the modulus.
    pub fn modulus(&self) -> (bytes: &Vec<u8>)
        ensures
            bytes@ == self@.modulus,
    {
        &self.modulus
    }

    /// The big-endian bytes of the public exponent.
    pub fn exponent(&self) -> (bytes: &Vec<u8>)
        ensures
            bytes@ == self@.exponent,
    {
        &self.exponent
    }
}

impl Clone for PublicKey {
    fn clone(&self) -> (copy: PublicKey)
        ensures
            copy@ == self@,
    {
        PublicKey { modulus: clone_bytes(&self.modulus), exponent: clone_bytes(&self.exponent) }
    }
}

/// How many bits it takes to write `byte`.
pub open spec fn byte_bits(byte: u8) -> nat {
    if byte == 0 {
        0
    } else if byte < 2 {
        1
    } else if byte < 4 {
        2
    } else if byte < 8 {
        3
    } else if byte < 16 {
        4
    } else if byte < 32 {
        5
    } else if byte < 64 {
        6
    } else if byte < 128 {
        7
    } else {
        8
    }
}

/// How many bits it takes to write the number of which `bytes` are the
/// big-endian bytes.
pub open spec fn bit_length(bytes: Seq<u8>) -> nat
    decreases bytes.len(),
{
    if bytes.len() == 0 {
        0
    } else if bytes[0] == 0 {
        bit_length(bytes.drop_first())
    } else {
        8 * (bytes.len() - 1) as nat + byte_bits(bytes[0])
    }
}

/// The big-endian bytes of 65537, the public exponent of every generated
/// key.
pub open spec fn generated_exponent() -> Seq<u8> {
    seq![1u8, 0u8, 1u8]
}

/// Whether `key` is the public half that a generated key of `bits` bits
/// has: a modulus that takes exactly `bits` bits, written without a
/// leading zero byte, and the public exponent 65537.
pub open spec fn has_size(key: PublicKeyView, bits: nat) -> bool {
    &&& bit_length(key.modulus) == bits
    &&& key.modulus.len() > 0 ==> key.modulus[0] != 0
    &&& key.exponent == generated_exponent()
}

/// The SHA-512 digest of `data`.
pub uninterp spec fn sha512_digest(data: Seq<u8>) -> Seq<u8>;

/// Hashes `data` with `sha2::Sha512::digest`. The result is the SHA-512
/// digest of the bytes, which has 64 bytes whatever the input.
#[verifier::external_body]
pub(crate) fn sha512(data: &[u8]) -> (digest: Vec<u8>)
    ensures
        digest@ == sha512_digest(data@),
        digest@.len() == DIGEST_BYTES,
{
    sha2::Sha512::digest(data).to_vec()
}

/// Generates a two-prime RSA key by `rsa::RsaPrivateKey::new`, on the
/// operating system's random numbers, and reads its public half: the bytes
/// that `BigUint::to_bytes_be` gives for the modulus `n()` and for the
/// public exponent `e()`. Whether a key comes is not promised. Of a key
/// that comes, the crate's source shows this: it generates until the
/// modulus takes exactly `bit_size` bits, the public exponent is 65537, and
/// `to_bytes_be` gives the fewest bytes that hold a number, the most
/// significant first. Sizes under 64 bits are left out: there the crate may
/// ask for a prime too small to exist. Sizes over 4096 bits are left out
/// too: the crate takes no key that large.
#[verifier::external_body]
fn generate_keys(bit_size: usize) -> (outcome: Result<
    (PrivateKey, PublicKey),
    rsa::errors::Error,
>)
    requires
        MIN_KEY_BITS <= bit_size <= MAX_KEY_BITS,
    ensures
        outcome matches Ok(keys) ==> has_size(keys.1@, bit_size as nat),
{
    match rsa::RsaPrivateKey::new(&mut rand::rngs::OsRng, bit_size) {
        Ok(private) => {
            let modulus = private.n().to_bytes_be();
            let exponent = private.e().to_bytes_be();
            Ok((private, PublicKey { modulus, exponent }))
        },
        Err(error) => Err(error),
    }
}

/// Signs `message` with `key` by `rsa::pss::SigningKey::<Sha256>`'s
/// `try_sign_with_rng`, on the thread's random number generator: an
/// RSASSA-PSS signature over the SHA-256 digest of `message`, with a random
/// salt, so two calls on one message differ, and nothing is promised of the
/// outcome.
#[verifier::external_body]
fn pss_sign(key: &PrivateKey, message: &[u8]) -> (outcome: Result<
    Vec<u8>,
    rsa::signature::Error,
>) {
    let signer = rsa::pss::SigningKey::<sha2::Sha256>::new(key.clone());
    match signer.try_sign_with_rng(&mut rand::thread_rng(), message) {
        Ok(signature) => Ok(signature.to_vec()),
        Err(error) => Err(error),
    }
}

/// What key generation gave: the key pair where it gave one, and the
/// library's error where it gave none.
pub fn key_pair_from(outcome: Result<(PrivateKey, PublicKey), rsa::errors::Error>) -> (pair:
    Result<(PrivateKey, PublicKey), CryptoError>)
    ensures
        pair is Ok <==> outcome is Ok,
        pair matches Ok(keys) ==> keys == outcome->Ok_0,
        pair matches Err(error) ==> error == CryptoError::KeyGeneration,
{
    match outcome {
        Ok(keys) => Ok(keys),
        Err(_) => Err(CryptoError::KeyGeneration),
    }
}

/// Generates a key pair with a modulus of `bit_size` bits and the public
/// exponent 65537. A size under [`MIN_KEY_BITS`] or over [`MAX_KEY_BITS`]
/// is refused.
pub fn generate_key_pair_with_bits(bit_size: usize) -> (pair: Result<
    (PrivateKey, PublicKey),
    CryptoError,
>)
    ensures
        !(MIN_KEY_BITS <= bit_size <= MAX_KEY_BITS) ==> pair is Err,
        pair matches Ok(keys) ==> has_size(keys.1@, bit_size as nat),
        pair matches Err(error) ==> error == CryptoError::KeyGeneration,
{
    if bit_size < MIN_KEY_BITS || bit_size > MAX_KEY_BITS {
        return Err(CryptoError::KeyGeneration);
    }
    key_pair_from(generate_keys(bit_size))
}

/// Generates a key pair with a modulus of [`KEY_BITS`] bits and the public
/// exponent 65537.
pub fn generate_key_pair() -> (pair: Result<(PrivateKey, PublicKey), CryptoError>)
    ensures
        pair matches Ok(keys) ==> has_size(keys.1@, KEY_BITS as nat),
        pair matches Err(error) ==> error == CryptoError::KeyGeneration,
{
    generate_key_pair_with_bits(KEY_BITS)
}

/// The first eight of `bytes` read as a little-endian number.
pub open spec fn leading_u64(bytes: Seq<u8>) -> AccountId
    recommends
        bytes.len() >= 8,
{
    (bytes[0] + bytes[1] * 0x100 + bytes[2] * 0x1_0000 + bytes[3] * 0x100_0000 + bytes[4]
        * 0x1_0000_0000 + bytes[5] * 0x100_0000_0000 + bytes[6] * 0x1_0000_0000_0000 + bytes[7]
        * 0x100_0000_0000_0000) as AccountId
}

/// The account id that belongs to `key`: the leading eight bytes of the
/// SHA-512 digest of the modulus followed by the exponent.
pub open spec fn account_id_of(key: PublicKeyView) -> AccountId {
    leading_u64(sha512_digest(key.modulus + key.exponent))
}

/// Derives the account id of `key`.
pub fn to_account_id(key: &PublicKey) -> (id: AccountId)
    ensures
        id == account_id_of(key@),
{
    let mut bytes = clone_bytes(&key.modulus);
    let mut exponent = clone_bytes(&key.exponent);
    bytes.append(&mut exponent);
    assert(bytes@ =~= key@.modulus + key@.exponent);
    let digest = sha512(bytes.as_slice());
    let id: u64 = (digest[0] as u64) + (digest[1] as u64) * 0x100 + (digest[2] as u64) * 0x1_0000
        + (digest[3] as u64) * 0x100_0000 + (digest[4] as u64) * 0x1_0000_0000 + (digest[5] as u64)
        * 0x100_0000_0000 + (digest[6] as u64) * 0x1_0000_0000_0000 + (digest[7] as u64)
        * 0x100_0000_0000_0000;
    id
}

/// What signing gave, as the bytes of the signature.
pub fn signature_from(outcome: Result<Vec<u8>, rsa::signature::Error>) -> (signature: Result<
    Vec<u8>,
    CryptoError,
>)
    ensures
        signature is Ok <==> outcome is Ok,
        signature matches Ok(bytes) ==> bytes == outcome->Ok_0,
        signature matches Err(error) ==> error == CryptoError::Signing,
{
    match outcome {
        Ok(bytes) => Ok(bytes),
        Err(_) => Err(CryptoError::Signing),
    }
}

/// Signs `digest`, the SHA-512 digest of an encoded payload, with `key`.
pub fn sign(key: &PrivateKey, digest: &[u8]) -> (signature: Result<Vec<u8>, CryptoError>)
    ensures
        signature matches Err(error) ==> error == CryptoError::Signing,
{
    signature_from(pss_sign(key, digest))
}

/// Copies a byte vector.
pub(crate) fn clone_bytes(bytes: &Vec<u8>) -> (copy: Vec<u8>)
    ensures
        copy@ == bytes@,
{
    let copy = bytes.clone();
    assert(copy@ =~= bytes@);
    copy
}

} // verus!
