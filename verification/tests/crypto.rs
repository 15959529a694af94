use chain_crypto::hashing::{CryptoHash, Hashed, Signable, TestString};
use chain_crypto::signing::{
    CryptoError, Secp256k1KeyPair, Secp256k1PublicKey, Secp256k1Signature,
};

struct Foo(String);

impl Signable for Foo {
    fn type_tag() -> vstd::seq::Seq<u8> {
        panic!()
    }

    fn payload(&self) -> vstd::seq::Seq<u8> {
        panic!()
    }

    fn write_tag(out: &mut Vec<u8>) {
        out.extend_from_slice(b"Foo");
    }

    fn write_payload(&self, out: &mut Vec<u8>) {
        chain_crypto::encoding::write_bytes(out, self.0.as_bytes());
    }

    fn declared_name() -> String {
        "Foo".to_owned()
    }
}

#[test]
fn test_signatures() {
    let keypair1 = Secp256k1KeyPair::generate();
    let keypair2 = Secp256k1KeyPair::generate();

    let ts = TestString("hello".into());
    let tsx = TestString("hellox".into());
    let foo = Foo("hello".into());

    let s = Secp256k1Signature::new(&ts, &keypair1.secret_key);
    assert!(s.check(&ts, &keypair1.public_key).is_ok());
    assert!(s.check(&ts, &keypair2.public_key).is_err());
    assert!(s.check(&tsx, &keypair1.public_key).is_err());
    assert!(s.check(&foo, &keypair1.public_key).is_err());
}

#[test]
fn public_key_hex_round_trip() {
    let kp = Secp256k1KeyPair::generate();
    let hex_text = kp.public_key.to_hex();
    assert_eq!(hex_text.len(), 66);
    let decoded = Secp256k1PublicKey::from_hex(&hex_text).unwrap();
    assert_eq!(decoded.as_bytes(), kp.public_key.as_bytes());
    assert!(decoded == kp.public_key);
}

#[test]
fn public_key_hex_uppercase_accepted() {
    let kp = Secp256k1KeyPair::generate();
    let upper = kp.public_key.to_hex().to_uppercase();
    let decoded = Secp256k1PublicKey::from_hex(&upper).unwrap();
    assert_eq!(decoded.as_bytes(), kp.public_key.as_bytes());
}

#[test]
fn signature_der_round_trip() {
    let kp = Secp256k1KeyPair::generate();
    let ts = TestString("payload".into());
    let s = Secp256k1Signature::new(&ts, &kp.secret_key);
    let der = s.to_der();
    let back = Secp256k1Signature::from_der(&der).unwrap();
    assert!(back == s);
    let hex_text = s.to_hex();
    let back2 = Secp256k1Signature::from_hex(&hex_text).unwrap();
    assert!(back2 == s);
}

#[test]
fn signature_compact_round_trip() {
    let kp = Secp256k1KeyPair::generate();
    let ts = TestString("x".into());
    let s = Secp256k1Signature::new(&ts, &kp.secret_key);
    assert_eq!(s.as_bytes().len(), 64);
    let back = Secp256k1Signature::from_compact(s.as_bytes()).unwrap();
    assert!(back == s);
}

#[test]
fn authentication_scenario() {
    // secret `sk`, public `pk = public(sk)`.
    let kp = Secp256k1KeyPair::generate();
    let sk = kp.secret_key.copy();
    let pk = sk.public();
    assert!(pk == kp.public_key);
    let hello = TestString("hello".into());
    let hellox = TestString("hellox".into());
    // sign("hello", sk) = s; check(s, "hello", pk) = Ok.
    let s = Secp256k1Signature::new(&hello, &sk);
    assert!(s.check(&hello, &pk).is_ok());
    // check against an unrelated public key is an authentication error.
    let pk2 = Secp256k1KeyPair::generate().public_key;
    match s.check(&hello, &pk2) {
        Err(CryptoError::InvalidSignature { declared_type, .. }) => {
            assert_eq!(declared_type, "TestString");
        }
        other => panic!("expected an authentication error, got {:?}", other),
    }
    // a single-byte difference in the value is an authentication error.
    assert!(matches!(
        s.check(&hellox, &pk),
        Err(CryptoError::InvalidSignature { .. })
    ));
}

#[test]
fn batch_verification() {
    let ts = TestString("vote".into());
    let mut votes: Vec<(Secp256k1PublicKey, Secp256k1Signature)> = Vec::new();
    for _ in 0..4 {
        let kp = Secp256k1KeyPair::generate();
        let s = Secp256k1Signature::new(&ts, &kp.secret_key);
        votes.push((kp.secret_key.public(), s));
    }
    assert!(Secp256k1Signature::verify_batch(&ts, &votes).is_ok());

    // Corrupt exactly one pair: flip a byte of the third signature. The
    // error identifies that pair by position.
    let mut bytes = votes[2].1.as_bytes().clone();
    bytes[10] ^= 0x01;
    if let Ok(bad) = Secp256k1Signature::from_compact(&bytes) {
        let good = std::mem::replace(&mut votes[2].1, bad);
        match Secp256k1Signature::verify_batch(&ts, &votes) {
            Err(CryptoError::InvalidBatchSignature { index, declared_type, .. }) => {
                assert_eq!(index, 2);
                assert_eq!(declared_type, "TestString");
            }
            other => panic!("expected a batch failure at the third pair, got {:?}", other),
        }
        votes[2].1 = good;
    }

    // A wrong public key in one pair also fails the batch, at that pair.
    let wrong = Secp256k1KeyPair::generate().public_key;
    votes[1].0 = wrong;
    match Secp256k1Signature::verify_batch(&ts, &votes) {
        Err(CryptoError::InvalidBatchSignature { index, .. }) => assert_eq!(index, 1),
        other => panic!("expected a batch failure at the second pair, got {:?}", other),
    }
}

#[test]
fn batch_verification_empty_succeeds() {
    let ts = TestString("empty".into());
    let votes: Vec<(Secp256k1PublicKey, Secp256k1Signature)> = Vec::new();
    assert!(Secp256k1Signature::verify_batch(&ts, &votes).is_ok());
}

#[test]
fn public_key_decode_errors() {
    let junk = vec![7u8; 33];
    match Secp256k1PublicKey::try_from_slice(&junk) {
        Err(CryptoError::IncorrectPublicKeySize(n)) => assert_eq!(n, 33),
        other => panic!("expected a key size error, got {:?}", other),
    }
    let short = vec![2u8; 5];
    assert!(matches!(
        Secp256k1PublicKey::try_from_slice(&short),
        Err(CryptoError::IncorrectPublicKeySize(5))
    ));
    // Text that is not hexadecimal is a decode failure of its own kind.
    assert!(matches!(
        Secp256k1PublicKey::from_hex("zz"),
        Err(CryptoError::InvalidHexEncoding)
    ));
    // Well-formed hex that spells no curve point reports the offered
    // length.
    let not_a_point = "07".repeat(33);
    assert!(matches!(
        Secp256k1PublicKey::from_hex(&not_a_point),
        Err(CryptoError::IncorrectPublicKeySize(33))
    ));
}

#[test]
fn signature_decode_errors() {
    let junk = vec![0xffu8; 64];
    assert!(matches!(
        Secp256k1Signature::from_compact(&junk),
        Err(CryptoError::InvalidSignatureEncoding)
    ));
    let garbage = vec![1u8, 2, 3];
    assert!(matches!(
        Secp256k1Signature::from_der(&garbage),
        Err(CryptoError::InvalidSignatureEncoding)
    ));
    assert!(matches!(
        Secp256k1Signature::from_hex("nothex"),
        Err(CryptoError::InvalidSignatureEncoding)
    ));
}

#[test]
fn content_hash_is_a_real_digest() {
    let a = CryptoHash::new(&TestString("a".into()));
    let b = CryptoHash::new(&TestString("b".into()));
    assert_eq!(a.as_bytes().len(), 32);
    assert!(a != b);
    // Same value, same digest: content identity is deterministic.
    let a2 = CryptoHash::new(&TestString("a".into()));
    assert!(a == a2);
    // The digest is not the input itself.
    assert_ne!(a.as_bytes(), CryptoHash::new(&TestString("a".into())).as_bytes().iter().rev().cloned().collect::<Vec<u8>>());
}

#[test]
fn hashed_wrapper_paths() {
    let v = TestString("content".into());
    let hashed = Hashed::new(v);
    let h = hashed.hash();
    assert!(h == CryptoHash::new(hashed.inner()));
    let again = Hashed::unchecked_new(TestString("content".into()), h);
    assert!(again.hash() == hashed.hash());
    let inner = again.into_inner();
    assert_eq!(inner.0, "content");
}

#[test]
fn test_key_is_a_fake() {
    let k = Secp256k1PublicKey::test_key(9);
    assert_eq!(k.as_bytes().len(), 33);
    assert!(k.as_bytes().iter().all(|b| *b == 9));
    let ts = TestString("hello".into());
    let kp = Secp256k1KeyPair::generate();
    let s = Secp256k1Signature::new(&ts, &kp.secret_key);
    assert!(s.check(&ts, &k).is_err());
}

#[test]
fn signature_der_non_canonical_spelling() {
    // The DER parser admits this non-canonical spelling (an out-of-range
    // integer), so decoding succeeds, but re-encoding yields the
    // canonical form, not the input: only a signature's own rendering is
    // promised to round-trip.
    let spelled = vec![0x30u8, 0x06, 0x02, 0x01, 0x80, 0x02, 0x01, 0x01];
    if let Ok(sig) = Secp256k1Signature::from_der(&spelled) {
        assert_ne!(sig.to_der(), spelled);
    }
}
