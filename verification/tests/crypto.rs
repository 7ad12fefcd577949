use blockchain_simulator::crypto_helper::{
    key_pair_from, sign, signature_from, DIGEST_BYTES, KEY_BITS, MAX_KEY_BITS, MIN_KEY_BITS,
};
use blockchain_simulator::{
    generate_key_pair_with_bits, to_account_id, CryptoError, PublicKey, TestOperation,
    Transaction, TxPayload,
};
use rsa::signature::Verifier;
use rsa::traits::PublicKeyParts;
use sha2::Digest;

fn payload_digest(payload: &[u8]) -> Vec<u8> {
    sha2::Sha512::digest(payload).to_vec()
}

fn leading_eight(bytes: &[u8]) -> u64 {
    let mut first = [0u8; 8];
    first.copy_from_slice(&bytes[..8]);
    u64::from_le_bytes(first)
}

fn verifies(public: &PublicKey, message: &[u8], signature: &[u8]) -> bool {
    let key = rsa::RsaPublicKey::new(
        rsa::BigUint::from_bytes_be(public.modulus()),
        rsa::BigUint::from_bytes_be(public.exponent()),
    )
    .unwrap();
    let verifier = rsa::pss::VerifyingKey::<sha2::Sha256>::new(key);
    match rsa::pss::Signature::try_from(signature) {
        Ok(signature) => verifier.verify(message, &signature).is_ok(),
        Err(_) => false,
    }
}

#[test]
fn key_sizes_are_as_documented() {
    assert_eq!(KEY_BITS, 2048);
    assert_eq!(MIN_KEY_BITS, 64);
    assert_eq!(MAX_KEY_BITS, 4096);
    assert_eq!(DIGEST_BYTES, 64);
}

#[test]
fn account_id_of_empty_key_material() {
    let key = PublicKey::from_parts(vec![], vec![]);
    assert_eq!(to_account_id(&key), 0xbdb8_ef7e_35e1_83cf);
}

#[test]
fn account_id_hashes_modulus_then_exponent() {
    let key = PublicKey::from_parts(vec![1, 2, 3], vec![1, 0, 1]);
    assert_eq!(to_account_id(&key), 0xaf0d_cb28_a05b_cc8c);
    let split_elsewhere = PublicKey::from_parts(vec![1, 2, 3, 1], vec![0, 1]);
    assert_eq!(to_account_id(&split_elsewhere), 0xaf0d_cb28_a05b_cc8c);
    let swapped = PublicKey::from_parts(vec![1, 0, 1], vec![1, 2, 3]);
    assert_ne!(to_account_id(&swapped), 0xaf0d_cb28_a05b_cc8c);
}

#[test]
fn account_id_is_stable() {
    let key = PublicKey::from_parts(b"a".to_vec(), b"bc".to_vec());
    assert_eq!(to_account_id(&key), 0xba7a_6193_a135_afdd);
    assert_eq!(to_account_id(&key.clone()), 0xba7a_6193_a135_afdd);
}

#[test]
fn public_key_keeps_its_parts() {
    let key = PublicKey::from_parts(vec![9, 8, 7], vec![1, 0, 1]);
    assert_eq!(key.modulus(), &vec![9, 8, 7]);
    assert_eq!(key.exponent(), &vec![1, 0, 1]);
    let copy = key.clone();
    assert_eq!(copy.modulus(), key.modulus());
    assert_eq!(copy.exponent(), key.exponent());
}

#[test]
fn generated_pair_belongs_together() {
    let (private, public) = generate_key_pair_with_bits(1024).unwrap();
    assert_eq!(public.modulus(), &private.n().to_bytes_be());
    assert_eq!(public.exponent(), &private.e().to_bytes_be());
    assert_eq!(public.modulus().len(), 128);
    assert!(public.modulus()[0] >= 0x80);
    assert_eq!(public.exponent(), &vec![1, 0, 1]);

    let mut material = public.modulus().clone();
    material.extend_from_slice(public.exponent());
    let expected = leading_eight(&sha2::Sha512::digest(&material));
    assert_eq!(to_account_id(&public), expected);
}

#[test]
fn generated_modulus_takes_the_bits_asked_for() {
    let (private, public) = generate_key_pair_with_bits(100).unwrap();
    assert_eq!(private.n().bits(), 100);
    assert_eq!(public.modulus().len(), 13);
    assert!((8..16).contains(&public.modulus()[0]));
    assert_eq!(public.exponent(), &vec![1, 0, 1]);

    let (private, public) = generate_key_pair_with_bits(257).unwrap();
    assert_eq!(private.n().bits(), 257);
    assert_eq!(public.modulus().len(), 33);
    assert_eq!(public.modulus()[0], 1);
    assert_eq!(public.exponent(), &vec![1, 0, 1]);
}

#[test]
fn key_sizes_out_of_range_are_refused() {
    assert!(matches!(generate_key_pair_with_bits(0), Err(CryptoError::KeyGeneration)));
    assert!(matches!(generate_key_pair_with_bits(63), Err(CryptoError::KeyGeneration)));
    assert!(matches!(generate_key_pair_with_bits(4097), Err(CryptoError::KeyGeneration)));
    assert!(matches!(generate_key_pair_with_bits(usize::MAX), Err(CryptoError::KeyGeneration)));
    assert!(generate_key_pair_with_bits(64).is_ok());
}

#[test]
fn failed_key_generation_is_reported() {
    let outcome = key_pair_from(Err(rsa::errors::Error::TooFewPrimes));
    assert!(matches!(outcome, Err(CryptoError::KeyGeneration)));
}

#[test]
fn generated_pair_is_passed_on() {
    let (private, public) = generate_key_pair_with_bits(64).unwrap();
    let modulus = public.modulus().clone();
    let (passed_private, passed_public) = key_pair_from(Ok((private.clone(), public))).unwrap();
    assert_eq!(passed_private, private);
    assert_eq!(passed_public.modulus(), &modulus);
}

#[test]
fn signing_outcome_is_passed_on() {
    assert_eq!(signature_from(Ok(vec![1, 2, 3])), Ok(vec![1, 2, 3]));
    assert_eq!(signature_from(Err(rsa::signature::Error::new())), Err(CryptoError::Signing));
}

#[test]
fn signature_verifies_and_is_salted() {
    let (private, public) = generate_key_pair_with_bits(1024).unwrap();
    let digest = payload_digest(b"some payload");
    let first = sign(&private, &digest).unwrap();
    let second = sign(&private, &digest).unwrap();
    assert_eq!(first.len(), 128);
    assert_eq!(second.len(), 128);
    assert_ne!(first, second);
    assert_ne!(first, digest);
    assert!(verifies(&public, &digest, &first));
    assert!(verifies(&public, &digest, &second));
    assert!(!verifies(&public, &payload_digest(b"another payload"), &first));
}

#[test]
fn key_too_short_for_the_signature_is_reported() {
    let (private, _) = generate_key_pair_with_bits(256).unwrap();
    let digest = payload_digest(b"some payload");
    assert_eq!(sign(&private, &digest), Err(CryptoError::Signing));
    let tx = Transaction::new(1, TestOperation::Empty {}, b"some payload", &private);
    assert!(matches!(tx, Err(CryptoError::Signing)));
}

#[test]
fn new_transaction_is_signed_over_the_payload_digest() {
    let (private, public) = generate_key_pair_with_bits(1024).unwrap();
    let account = to_account_id(&public);
    let encoded: Vec<u8> = vec![1, 0, 0, 0, 0, 0, 0, 0];
    let tx = Transaction::new(account, TestOperation::Empty {}, &encoded, &private).unwrap();
    assert_eq!(*tx.get_source(), account);
    assert!(matches!(
        tx.get_payload(),
        TxPayload::Operation { operation: TestOperation::Empty {} }
    ));
    assert!(verifies(&public, &payload_digest(&encoded), tx.get_signature()));
    assert!(!verifies(&public, &encoded, tx.get_signature()));
    assert!(matches!(
        tx.into_payload(),
        TxPayload::Operation { operation: TestOperation::Empty {} }
    ));
}

#[test]
fn create_account_transaction_comes_from_the_new_account() {
    let (private, public) = generate_key_pair_with_bits(1024).unwrap();
    let account = to_account_id(&public);
    let encoded: Vec<u8> = vec![0, 0, 0, 0, 42];
    let tx = Transaction::<TestOperation>::new_create_account(public.clone(), &encoded, &private)
        .unwrap();
    assert_eq!(*tx.get_source(), account);
    match tx.get_payload() {
        TxPayload::CreateAccount { public_key } => {
            assert_eq!(public_key.modulus(), public.modulus());
            assert_eq!(public_key.exponent(), public.exponent());
        }
        TxPayload::Operation { .. } => panic!("wrong payload"),
    }
    assert!(verifies(&public, &payload_digest(&encoded), tx.get_signature()));
}

#[test]
fn sealing_follows_the_signing_outcome() {
    let payload = TxPayload::Operation { operation: TestOperation::Empty {} };
    let sealed = Transaction::sealed(5, payload, Ok(vec![4, 4])).unwrap();
    assert_eq!(*sealed.get_source(), 5);
    assert_eq!(sealed.get_signature(), &vec![4, 4]);

    let payload = TxPayload::Operation { operation: TestOperation::Empty {} };
    let failed = Transaction::sealed(5, payload, Err(CryptoError::Signing));
    assert!(matches!(failed, Err(CryptoError::Signing)));
}

#[test]
fn transaction_parts_come_back() {
    let key = PublicKey::from_parts(vec![3], vec![1]);
    let tx = Transaction::<TestOperation>::from_parts(
        77,
        TxPayload::CreateAccount { public_key: key },
        vec![1, 2],
    );
    assert_eq!(*tx.get_source(), 77);
    assert_eq!(tx.get_signature(), &vec![1, 2]);
    let copy = tx.clone();
    assert_eq!(*copy.get_source(), 77);
    assert_eq!(copy.get_signature(), &vec![1, 2]);
    match copy.into_payload() {
        TxPayload::CreateAccount { public_key } => assert_eq!(public_key.modulus(), &vec![3]),
        TxPayload::Operation { .. } => panic!("wrong payload"),
    }
}
