use chain_crypto::data_types::AccountOwner;
use chain_crypto::hashing::{CryptoHash, TestString};
use chain_crypto::signer::{InMemSigner, Prng, Signer, SignerDecodeError};
use chain_crypto::signing::Secp256k1KeyPair;

#[test]
fn signer_sign_and_lookup() {
    let mut signer = InMemSigner::new(Some(7));
    let pk = signer.generate_new();
    let owner = AccountOwner::from_public_key(&pk);
    assert!(signer.contains_key(&owner));
    let got = signer.get_public(&owner).unwrap();
    assert!(got == pk);

    let digest = CryptoHash::new(&TestString("vote".into()));
    let sig = signer.sign(&owner, &digest).unwrap();
    // A prehash is signed as-is, so checking the original value against
    // the held public key recomputes the same digest and succeeds.
    assert!(sig.check(&TestString("vote".into()), &got).is_ok());

    // Unknown owners give an empty result, not an error.
    let stranger = AccountOwner(CryptoHash::new(&TestString("nobody".into())));
    assert!(!signer.contains_key(&stranger));
    assert!(signer.get_public(&stranger).is_none());
    assert!(signer.sign(&stranger, &digest).is_none());
}

#[test]
fn signer_prehash_signature_verifies() {
    let mut signer = InMemSigner::new(Some(11));
    let pk = signer.generate_new();
    let owner = AccountOwner::from_public_key(&pk);
    let value = TestString("message".into());
    let digest = CryptoHash::new(&value);
    let sig = signer.sign(&owner, &digest).unwrap();
    // Signing the prehash equals signing the value itself.
    assert!(sig.check(&value, &pk).is_ok());
}

#[test]
fn keyring_determinism() {
    // An InMemSigner seeded with S, after generating K keys, serialized
    // then deserialized, must produce keys K+1, K+2, ... bit-identical
    // to an uninterrupted signer.
    let seed = 424242u64;
    let mut interrupted = InMemSigner::new(Some(seed));
    let k1 = interrupted.generate_new();
    let k2 = interrupted.generate_new();

    let bytes = interrupted.to_bytes();
    let mut reloaded = InMemSigner::from_bytes(&bytes).unwrap();

    let mut uninterrupted = InMemSigner::new(Some(seed));
    let u1 = uninterrupted.generate_new();
    let u2 = uninterrupted.generate_new();
    assert!(u1 == k1 && u2 == k2);

    for _ in 0..3 {
        let a = reloaded.generate_new();
        let b = uninterrupted.generate_new();
        assert_eq!(a.as_bytes(), b.as_bytes());
    }

    // The reloaded keyring still holds the earlier keys.
    let owner1 = AccountOwner::from_public_key(&k1);
    assert!(reloaded.contains_key(&owner1));
    assert!(reloaded.get_public(&owner1).unwrap() == k1);
}

#[test]
fn signer_round_trip_exact_bytes() {
    let mut signer = InMemSigner::new(Some(5));
    signer.generate_new();
    let bytes = signer.to_bytes();
    let back = InMemSigner::from_bytes(&bytes).unwrap();
    assert_eq!(back.to_bytes(), bytes);
}

#[test]
fn signer_decode_rejects_malformed() {
    assert!(matches!(
        InMemSigner::from_bytes(&[9u8, 9, 9]),
        Err(SignerDecodeError::Malformed)
    ));
    // Trailing bytes are refused too.
    let mut bytes = InMemSigner::new(Some(1)).to_bytes();
    bytes.push(0);
    assert!(matches!(
        InMemSigner::from_bytes(&bytes),
        Err(SignerDecodeError::Malformed)
    ));
    // An empty input has no seed byte.
    assert!(InMemSigner::from_bytes(&[]).is_err());
}

#[test]
fn unseeded_signer_works() {
    let mut signer = InMemSigner::new(None);
    let pk = signer.generate_new();
    let owner = AccountOwner::from_public_key(&pk);
    assert!(signer.contains_key(&owner));
    let bytes = signer.to_bytes();
    let reloaded = InMemSigner::from_bytes(&bytes).unwrap();
    assert!(reloaded.contains_key(&owner));
}

#[test]
fn seeded_prng_reproduces_key_pairs() {
    let mut rng1 = Prng::new(Some(99), 0);
    let mut rng2 = Prng::new(Some(99), 0);
    let a = Secp256k1KeyPair::generate_from(&mut rng1);
    let b = Secp256k1KeyPair::generate_from(&mut rng2);
    assert!(a.public_key == b.public_key);
    assert_eq!(a.secret_key.secret_bytes(), b.secret_key.secret_bytes());
    // A generator resumed at one draw continues the stream.
    let a2 = Secp256k1KeyPair::generate_from(&mut rng1);
    let mut resumed = Prng::new(Some(99), 1);
    let b2 = Secp256k1KeyPair::generate_from(&mut resumed);
    assert!(a2.public_key == b2.public_key);
    assert!(a2.public_key != a.public_key);
}

#[test]
fn key_pair_generation_is_well_formed() {
    let kp = Secp256k1KeyPair::generate();
    assert!(*kp.public() == kp.secret_key.public());
    let copied = kp.secret_key.copy();
    assert!(copied == kp.secret_key);
}

#[test]
fn signer_from_existing_keys() {
    // Adopt existing key pairs into a signer, as plain (owner, secret)
    // pairs, without a seed.
    let kp1 = Secp256k1KeyPair::generate();
    let kp2 = Secp256k1KeyPair::generate();
    let owner1 = AccountOwner::from_public_key(&kp1.public_key);
    let owner2 = AccountOwner::from_public_key(&kp2.public_key);
    let signer = InMemSigner::from_keys(vec![
        (owner1, kp1.secret_key.copy()),
        (owner2, kp2.secret_key.copy()),
    ]);
    assert!(signer.contains_key(&owner1) && signer.contains_key(&owner2));
    assert!(signer.get_public(&owner1).unwrap() == kp1.public_key);
    assert_eq!(signer.draws(), 0);

    let value = TestString("adopted".into());
    let digest = CryptoHash::new(&value);
    let sig = signer.sign(&owner2, &digest).unwrap();
    assert!(sig.check(&value, &kp2.public_key).is_ok());

    let stranger = AccountOwner(CryptoHash::new(&TestString("nobody else".into())));
    assert!(!signer.contains_key(&stranger));
}
