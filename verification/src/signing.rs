//! secp256k1 key pairs and domain-separated ECDSA signing: values are
//! canonically hashed under their type tag and the 32-byte digest is
//! signed; verification recomputes the identical digest.

use vstd::prelude::*;

use crate::encoding::{hex_bytes_of, hex_of, valid_hex};
use crate::hashing::{hash_of, CryptoHash, Signable};

verus! {

/// Whether 32 big-endian bytes are a usable secret scalar:
/// `secp256k1::SecretKey::from_secret_bytes` accepts them. False for any
/// other length.
pub uninterp spec fn valid_scalar(b: Seq<u8>) -> bool;

/// The 33-byte compressed public key derived from a secret scalar: what
/// `secp256k1::PublicKey::from_secret_key` then `serialize` return, a
/// function of the secret alone.
pub uninterp spec fn public_of(sk: Seq<u8>) -> Seq<u8>;

/// Whether `secp256k1::PublicKey::from_slice` accepts these bytes as a
/// point on the curve.
pub uninterp spec fn valid_pubkey(b: Seq<u8>) -> bool;

/// The 64-byte compact form of the deterministic RFC 6979 ECDSA signature
/// that `secp256k1::ecdsa::sign` produces over a 32-byte digest: a
/// function of the digest and the secret alone.
pub uninterp spec fn ecdsa_sign_of(digest: Seq<u8>, sk: Seq<u8>) -> Seq<u8>;

/// Whether `secp256k1::ecdsa::verify` accepts the compact-encoded
/// signature for the digest under the serialized public key; false where
/// the signature or key bytes do not parse.
pub uninterp spec fn ecdsa_valid(sig: Seq<u8>, digest: Seq<u8>, pk: Seq<u8>) -> bool;

/// Whether `secp256k1::ecdsa::Signature::from_compact` accepts these
/// bytes: 64 bytes whose two components are in range.
pub uninterp spec fn valid_compact_sig(b: Seq<u8>) -> bool;

/// The DER encoding that `secp256k1::ecdsa::Signature::serialize_der`
/// gives to a signature, keyed by the signature's compact form.
pub uninterp spec fn der_of(sig: Seq<u8>) -> Seq<u8>;

/// Relies on `secp256k1::SecretKey::from_secret_bytes`: it accepts exactly
/// a 32-byte big-endian scalar that is nonzero and below the curve order;
/// since the order exceeds 2^255, every odd 32-byte value with a clear top
/// bit is accepted.
#[verifier::external_body]
pub(crate) fn scalar_is_valid(b: &Vec<u8>) -> (r: bool)
    ensures
        r == valid_scalar(b@),
        (b@.len() == 32 && b@[0] < 0x80 && b@[31] % 2 == 1) ==> r,
{
    match <[u8; 32]>::try_from(b.as_slice()) {
        Ok(a) => secp256k1::SecretKey::from_secret_bytes(a).is_ok(),
        Err(_) => false,
    }
}

/// Relies on `secp256k1::PublicKey::from_secret_key` and `serialize`: the
/// compressed public key of a secret scalar, 33 bytes, a valid point.
#[verifier::external_body]
fn derive_public(sk: &Vec<u8>) -> (r: Vec<u8>)
    requires
        sk@.len() == 32,
        valid_scalar(sk@),
    ensures
        r@ == public_of(sk@),
        r@.len() == 33,
        valid_pubkey(r@),
{
    let key = secp256k1::SecretKey::from_secret_bytes(
        <[u8; 32]>::try_from(sk.as_slice()).unwrap(),
    ).unwrap();
    secp256k1::PublicKey::from_secret_key(&key).serialize().to_vec()
}

/// Relies on `secp256k1::PublicKey::from_slice` and `serialize`: parsing
/// accepts exactly a valid 33-byte compressed or 65-byte uncompressed
/// point, and compressed serialization inverts compressed parsing.
#[verifier::external_body]
fn parse_public(b: &Vec<u8>) -> (r: Option<Vec<u8>>)
    ensures
        r is Some <==> valid_pubkey(b@),
        r matches Some(v) ==> v@.len() == 33 && valid_pubkey(v@),
        b@.len() == 33 ==> (r matches Some(v) ==> v@ == b@),
{
    match secp256k1::PublicKey::from_slice(b.as_slice()) {
        Ok(pk) => Some(pk.serialize().to_vec()),
        Err(_) => None,
    }
}

/// Relies on `secp256k1::ecdsa::sign`: deterministic RFC 6979 ECDSA over a
/// 32-byte digest; the produced compact signature parses back and verifies
/// against the digest under the secret's public key.
#[verifier::external_body]
fn ecdsa_sign(digest: &Vec<u8>, sk: &Vec<u8>) -> (r: Vec<u8>)
    requires
        digest@.len() == 32,
        sk@.len() == 32,
        valid_scalar(sk@),
    ensures
        r@ == ecdsa_sign_of(digest@, sk@),
        r@.len() == 64,
        valid_compact_sig(r@),
        ecdsa_valid(r@, digest@, public_of(sk@)),
{
    let key = secp256k1::SecretKey::from_secret_bytes(
        <[u8; 32]>::try_from(sk.as_slice()).unwrap(),
    ).unwrap();
    let msg = secp256k1::Message::from_digest(<[u8; 32]>::try_from(digest.as_slice()).unwrap());
    secp256k1::ecdsa::sign(msg, &key).serialize_compact().to_vec()
}

/// Relies on `secp256k1::ecdsa::Signature::from_compact`,
/// `secp256k1::PublicKey::from_slice` and `secp256k1::ecdsa::verify`:
/// acceptance of a compact signature for a digest under a serialized key;
/// the error holds the verification library's own message.
#[verifier::external_body]
fn ecdsa_check(sig: &Vec<u8>, digest: &Vec<u8>, pk: &Vec<u8>) -> (r: Result<(), String>)
    requires
        digest@.len() == 32,
    ensures
        r is Ok <==> ecdsa_valid(sig@, digest@, pk@),
{
    let parsed = match secp256k1::ecdsa::Signature::from_compact(sig.as_slice()) {
        Ok(s) => s,
        Err(e) => return Err(format!("{}", e)),
    };
    let key = match secp256k1::PublicKey::from_slice(pk.as_slice()) {
        Ok(k) => k,
        Err(e) => return Err(format!("{}", e)),
    };
    let msg = secp256k1::Message::from_digest(<[u8; 32]>::try_from(digest.as_slice()).unwrap());
    match secp256k1::ecdsa::verify(&parsed, msg, &key) {
        Ok(()) => Ok(()),
        Err(e) => Err(format!("{}", e)),
    }
}

/// Relies on `secp256k1::ecdsa::Signature::from_compact` and
/// `serialize_compact`: acceptance of a 64-byte compact encoding, which
/// serialization reproduces unchanged.
#[verifier::external_body]
fn parse_compact(b: &Vec<u8>) -> (r: Option<Vec<u8>>)
    ensures
        r is Some <==> valid_compact_sig(b@),
        r matches Some(v) ==> v@ == b@ && v@.len() == 64,
{
    match secp256k1::ecdsa::Signature::from_compact(b.as_slice()) {
        Ok(s) => Some(s.serialize_compact().to_vec()),
        Err(_) => None,
    }
}

/// Relies on `secp256k1::ecdsa::Signature::serialize_der` on a signature
/// parsed from its compact form: the DER rendering of the signature.
#[verifier::external_body]
fn compact_to_der(sig: &Vec<u8>) -> (r: Vec<u8>)
    requires
        valid_compact_sig(sig@),
    ensures
        r@ == der_of(sig@),
{
    let s = secp256k1::ecdsa::Signature::from_compact(sig.as_slice()).unwrap();
    s.serialize_der().to_vec()
}

/// Relies on `secp256k1::ecdsa::Signature::from_der`: DER parsing. The
/// parser also admits some non-canonical spellings (an out-of-range
/// integer falls back to the zero scalar), so of an arbitrary accepted
/// input only a valid result is promised; but `serialize_der` output is
/// always accepted, and decodes back to exactly the signature it came
/// from.
#[verifier::external_body]
fn der_to_compact(b: &Vec<u8>) -> (r: Option<Vec<u8>>)
    ensures
        r matches Some(v) ==> v@.len() == 64 && valid_compact_sig(v@),
        r matches Some(v) ==> (forall|c: Seq<u8>|
            valid_compact_sig(c) && #[trigger] der_of(c) == b@ ==> c == v@),
        r is None ==> (forall|c: Seq<u8>|
            !(valid_compact_sig(c) && #[trigger] der_of(c) == b@)),
{
    match secp256k1::ecdsa::Signature::from_der(b.as_slice()) {
        Ok(s) => Some(s.serialize_compact().to_vec()),
        Err(_) => None,
    }
}

/// Relies on `hex::encode`: lowercase hexadecimal, two digits per byte.
#[verifier::external_body]
fn hex_encode(b: &Vec<u8>) -> (r: String)
    ensures
        r@ == hex_of(b@),
{
    hex::encode(b.as_slice())
}

/// Relies on `hex::decode`: accepts exactly an even number of upper- or
/// lowercase hexadecimal digits and returns the bytes they spell.
#[verifier::external_body]
fn hex_decode(s: &str) -> (r: Option<Vec<u8>>)
    ensures
        r is Some <==> valid_hex(s@),
        r matches Some(v) ==> v@ == hex_bytes_of(s@),
{
    match hex::decode(s.as_bytes()) {
        Ok(v) => Some(v),
        Err(_) => None,
    }
}

/// Relies on `rand::rngs::OsRng`: 32 bytes from the operating system's
/// entropy source; nothing is promised of their values.
#[verifier::external_body]
pub(crate) fn os_random_32() -> (r: Vec<u8>)
    ensures
        r@.len() == 32,
{
    let mut b = [0u8; 32];
    rand::RngCore::fill_bytes(&mut rand::rngs::OsRng, &mut b);
    b.to_vec()
}

/// Errors of key decoding and signature verification.
#[derive(Debug)]
pub enum CryptoError {
    /// The signature did not verify; carries the verification library's
    /// message and the declared type name of the signed value.
    InvalidSignature { error: String, declared_type: String },
    /// One pair of a batch did not verify; identifies the failing pair
    /// by its position, with the verification library's message and the
    /// declared type name of the signed value.
    InvalidBatchSignature { index: usize, error: String, declared_type: String },
    /// Bytes of the wrong size or shape for a public key.
    IncorrectPublicKeySize(usize),
    /// Text that is not hexadecimal where a key was expected.
    InvalidHexEncoding,
    /// Bytes that are not a hexadecimal or DER signature encoding.
    InvalidSignatureEncoding,
}

/// Clamps 32 bytes into the accepted scalar range: clear top bit, odd low
/// bit. Any clamped value is below 2^255 and nonzero, hence a valid
/// secret scalar.
pub open spec fn clamp_scalar(s: Seq<u8>) -> Seq<u8> {
    s.update(0, (s[0] & 0x7f) as u8).update(31, (s[31] | 0x01) as u8)
}

/// Applies [`clamp_scalar`] to fresh key material.
pub(crate) fn clamp(bytes: &Vec<u8>) -> (r: Vec<u8>)
    requires
        bytes@.len() == 32,
    ensures
        r@ == clamp_scalar(bytes@),
        r@.len() == 32,
        r@[0] < 0x80,
        r@[31] % 2 == 1,
{
    let mut r: Vec<u8> = Vec::new();
    r.push(bytes[0] & 0x7f);
    let mut i: usize = 1;
    while i < 31
        invariant
            1 <= i <= 31,
            bytes@.len() == 32,
            r@.len() == i,
            r@[0] == (bytes@[0] & 0x7f) as u8,
            forall|j: int| 1 <= j < i ==> r@[j] == bytes@[j],
        decreases 31 - i,
    {
        r.push(bytes[i]);
        i = i + 1;
    }
    r.push(bytes[31] | 0x01);
    proof {
        let b0 = bytes@[0];
        let b31 = bytes@[31];
        assert((b0 & 0x7f) < 0x80) by (bit_vector);
        assert((b31 | 0x01) % 2 == 1) by (bit_vector);
        assert(r@ =~= clamp_scalar(bytes@));
    }
    r
}

/// A secp256k1 secret key, held as its 32 scalar bytes. Never duplicated
/// implicitly: copying is explicit through [`Secp256k1SecretKey::copy`],
/// and no debug rendering exists that could leak the scalar.
pub struct Secp256k1SecretKey {
    bytes: Vec<u8>,
}

impl View for Secp256k1SecretKey {
    type V = Seq<u8>;

    closed spec fn view(&self) -> Seq<u8> {
        self.bytes@
    }
}

impl Secp256k1SecretKey {
    #[verifier::type_invariant]
    closed spec fn type_wf(self) -> bool {
        self.bytes@.len() == 32 && valid_scalar(self.bytes@)
    }

    /// Wraps 32 validated scalar bytes.
    pub fn try_from_bytes(bytes: Vec<u8>) -> (r: Option<Secp256k1SecretKey>)
        ensures
            r is Some <==> (bytes@.len() == 32 && valid_scalar(bytes@)),
            r matches Some(k) ==> k@ == bytes@,
    {
        if bytes.len() == 32 && scalar_is_valid(&bytes) {
            Some(Secp256k1SecretKey { bytes })
        } else {
            None
        }
    }

    /// The secret scalar bytes, for explicit persistence only.
    pub fn secret_bytes(&self) -> (r: &Vec<u8>)
        ensures
            r@ == self@,
            r@.len() == 32,
            valid_scalar(r@),
    {
        proof {
            use_type_invariant(self);
        }
        &self.bytes
    }

    /// Returns the public key for this secret key.
    pub fn public(&self) -> (r: Secp256k1PublicKey)
        ensures
            r@ == public_of(self@),
            r@.len() == 33,
    {
        proof {
            use_type_invariant(self);
        }
        let v = derive_public(&self.bytes);
        Secp256k1PublicKey { bytes: v }
    }

    /// Signs a precomputed content hash directly, without rehashing: the
    /// digest is already the canonical, type-tagged identity of the
    /// signed content.
    pub fn sign_prehash(&self, value: &CryptoHash) -> (r: Secp256k1Signature)
        ensures
            r@ == ecdsa_sign_of(value@, self@),
            ecdsa_valid(r@, value@, public_of(self@)),
    {
        proof {
            use_type_invariant(self);
        }
        let db = value.as_bytes();
        let bytes = ecdsa_sign(&db, &self.bytes);
        Secp256k1Signature { bytes }
    }

    /// Copies the secret key. `Clone` and `Copy` are deliberately not
    /// implemented, so that secret material is only ever duplicated
    /// explicitly.
    pub fn copy(&self) -> (r: Secp256k1SecretKey)
        ensures
            r@ == self@,
    {
        proof {
            use_type_invariant(self);
        }
        let mut bytes: Vec<u8> = Vec::new();
        let mut i: usize = 0;
        while i < self.bytes.len()
            invariant
                0 <= i <= self.bytes@.len(),
                bytes@ =~= self.bytes@.take(i as int),
            decreases self.bytes@.len() - i,
        {
            bytes.push(self.bytes[i]);
            proof {
                assert(bytes@ =~= self.bytes@.take(i + 1 as int));
            }
            i = i + 1;
        }
        proof {
            assert(bytes@ =~= self.bytes@);
        }
        Secp256k1SecretKey { bytes }
    }
}

impl PartialEq for Secp256k1SecretKey {
    fn eq(&self, other: &Self) -> (r: bool) {
        proof {
            use_type_invariant(self);
            use_type_invariant(other);
        }
        let mut i: usize = 0;
        while i < 32
            invariant
                0 <= i <= 32,
                self.bytes@.len() == 32,
                other.bytes@.len() == 32,
                forall|j: int| 0 <= j < i ==> self.bytes@[j] == other.bytes@[j],
            decreases 32 - i,
        {
            if self.bytes[i] != other.bytes[i] {
                return false;
            }
            i = i + 1;
        }
        proof {
            assert(self.bytes@ =~= other.bytes@);
        }
        true
    }
}

impl vstd::std_specs::cmp::PartialEqSpecImpl for Secp256k1SecretKey {
    open spec fn obeys_eq_spec() -> bool {
        true
    }

    open spec fn eq_spec(&self, other: &Self) -> bool {
        self@ == other@
    }
}

impl Eq for Secp256k1SecretKey {

}

/// A secp256k1 public key, held as its 33-byte compressed serialization.
#[derive(Debug)]
pub struct Secp256k1PublicKey {
    bytes: Vec<u8>,
}

impl View for Secp256k1PublicKey {
    type V = Seq<u8>;

    closed spec fn view(&self) -> Seq<u8> {
        self.bytes@
    }
}

impl Secp256k1PublicKey {
    #[verifier::type_invariant]
    closed spec fn type_wf(self) -> bool {
        self.bytes@.len() == 33
    }

    /// The compressed key bytes.
    pub fn as_bytes(&self) -> (r: &Vec<u8>)
        ensures
            r@ == self@,
            r@.len() == 33,
    {
        proof {
            use_type_invariant(self);
        }
        &self.bytes
    }

    /// Parses a public key from its compressed or uncompressed
    /// serialization; fails exactly on bytes that are no curve point, with
    /// the offered length in the error.
    pub fn try_from_slice(bytes: &Vec<u8>) -> (r: Result<Secp256k1PublicKey, CryptoError>)
        ensures
            r is Ok <==> valid_pubkey(bytes@),
            r matches Ok(k) ==> k@.len() == 33 && valid_pubkey(k@) && (bytes@.len() == 33 ==> k@
                == bytes@),
            r matches Err(e) ==> e == CryptoError::IncorrectPublicKeySize(bytes@.len() as usize),
    {
        match parse_public(bytes) {
            Some(v) => Ok(Secp256k1PublicKey { bytes: v }),
            None => Err(CryptoError::IncorrectPublicKeySize(bytes.len())),
        }
    }

    /// The lowercase hexadecimal rendering used by human-readable
    /// encodings.
    pub fn to_hex(&self) -> (r: String)
        ensures
            r@ == hex_of(self@),
    {
        proof {
            use_type_invariant(self);
        }
        hex_encode(&self.bytes)
    }

    /// Parses the hexadecimal rendering: fails exactly when the text is
    /// not hexadecimal or does not spell a curve point, each failure
    /// under its own error. Together with [`Secp256k1PublicKey::to_hex`]
    /// this round-trips: decoding an encoded key reproduces the original
    /// bytes.
    pub fn from_hex(s: &str) -> (r: Result<Secp256k1PublicKey, CryptoError>)
        ensures
            r is Ok <==> valid_hex(s@) && valid_pubkey(hex_bytes_of(s@)),
            r matches Ok(k) ==> k@.len() == 33 && (hex_bytes_of(s@).len() == 33 ==> k@
                == hex_bytes_of(s@)),
            !valid_hex(s@) ==> r == Result::<Secp256k1PublicKey, CryptoError>::Err(
                CryptoError::InvalidHexEncoding,
            ),
            valid_hex(s@) && !valid_pubkey(hex_bytes_of(s@)) ==> r == Result::<
                Secp256k1PublicKey,
                CryptoError,
            >::Err(CryptoError::IncorrectPublicKeySize(hex_bytes_of(s@).len() as usize)),
    {
        match hex_decode(s) {
            Some(v) => {
                match Secp256k1PublicKey::try_from_slice(&v) {
                    Ok(k) => Ok(k),
                    Err(e) => Err(e),
                }
            },
            None => Err(CryptoError::InvalidHexEncoding),
        }
    }

    /// A fake public key used for testing: 33 copies of `name`. It is not
    /// checked to be a curve point; verification against it simply fails.
    pub fn test_key(name: u8) -> (r: Secp256k1PublicKey)
        ensures
            r@.len() == 33,
            forall|i: int| 0 <= i < 33 ==> r@[i] == name,
    {
        let mut bytes: Vec<u8> = Vec::new();
        let mut i: usize = 0;
        while i < 33
            invariant
                0 <= i <= 33,
                bytes@.len() == i,
                forall|j: int| 0 <= j < i ==> bytes@[j] == name,
            decreases 33 - i,
        {
            bytes.push(name);
            i = i + 1;
        }
        Secp256k1PublicKey { bytes }
    }
}

impl Clone for Secp256k1PublicKey {
    fn clone(&self) -> (r: Self)
        ensures
            r@ == self@,
    {
        proof {
            use_type_invariant(self);
        }
        let mut bytes: Vec<u8> = Vec::new();
        let mut i: usize = 0;
        while i < self.bytes.len()
            invariant
                0 <= i <= self.bytes@.len(),
                bytes@ =~= self.bytes@.take(i as int),
            decreases self.bytes@.len() - i,
        {
            bytes.push(self.bytes[i]);
            proof {
                assert(bytes@ =~= self.bytes@.take(i + 1 as int));
            }
            i = i + 1;
        }
        proof {
            assert(bytes@ =~= self.bytes@);
        }
        Secp256k1PublicKey { bytes }
    }
}

impl PartialEq for Secp256k1PublicKey {
    fn eq(&self, other: &Self) -> (r: bool) {
        proof {
            use_type_invariant(self);
            use_type_invariant(other);
        }
        let mut i: usize = 0;
        while i < 33
            invariant
                0 <= i <= 33,
                self.bytes@.len() == 33,
                other.bytes@.len() == 33,
                forall|j: int| 0 <= j < i ==> self.bytes@[j] == other.bytes@[j],
            decreases 33 - i,
        {
            if self.bytes[i] != other.bytes[i] {
                return false;
            }
            i = i + 1;
        }
        proof {
            assert(self.bytes@ =~= other.bytes@);
        }
        true
    }
}

impl vstd::std_specs::cmp::PartialEqSpecImpl for Secp256k1PublicKey {
    open spec fn obeys_eq_spec() -> bool {
        true
    }

    open spec fn eq_spec(&self, other: &Self) -> bool {
        self@ == other@
    }
}

impl Eq for Secp256k1PublicKey {

}

impl Signable for Secp256k1PublicKey {
    open spec fn type_tag() -> Seq<u8> {
        // "Secp256k1PublicKey"
        seq![83u8, 101u8, 99u8, 112u8, 50u8, 53u8, 54u8, 107u8, 49u8, 80u8, 117u8, 98u8, 108u8, 105u8, 99u8, 75u8, 101u8, 121u8]
    }

    open spec fn payload(&self) -> Seq<u8> {
        crate::encoding::enc_bytes(self@)
    }

    fn write_tag(out: &mut Vec<u8>) {
        out.push(83);
        out.push(101);
        out.push(99);
        out.push(112);
        out.push(50);
        out.push(53);
        out.push(54);
        out.push(107);
        out.push(49);
        out.push(80);
        out.push(117);
        out.push(98);
        out.push(108);
        out.push(105);
        out.push(99);
        out.push(75);
        out.push(101);
        out.push(121);
        proof {
            assert(out@ =~= old(out)@ + Self::type_tag());
        }
    }

    fn write_payload(&self, out: &mut Vec<u8>) {
        proof {
            use_type_invariant(self);
        }
        crate::encoding::write_bytes(out, self.bytes.as_slice());
    }

    fn declared_name() -> String {
        "Secp256k1PublicKey".to_owned()
    }
}

/// A secp256k1 key pair: the public key is the one derived from the
/// secret key.
#[derive(PartialEq, Eq)]
pub struct Secp256k1KeyPair {
    /// Secret key.
    pub secret_key: Secp256k1SecretKey,
    /// Public key.
    pub public_key: Secp256k1PublicKey,
}

impl Secp256k1KeyPair {
    /// Whether the public half is the key derived from the secret half.
    pub open spec fn well_formed(&self) -> bool {
        self.public_key@ == public_of(self.secret_key@)
    }

    /// Generates a new key pair from the operating system's entropy.
    pub fn generate() -> (r: Secp256k1KeyPair)
        ensures
            r.well_formed(),
    {
        let raw = os_random_32();
        let clamped = clamp(&raw);
        let ok = scalar_is_valid(&clamped);
        proof {
            assert(ok);
        }
        let secret_key = Secp256k1SecretKey { bytes: clamped };
        let public_key = secret_key.public();
        Secp256k1KeyPair { secret_key, public_key }
    }

    /// Generates a new key pair from the given generator. Use with care:
    /// a seeded generator yields a reproducible key stream.
    pub fn generate_from(rng: &mut crate::signer::Prng) -> (r: Secp256k1KeyPair)
        requires
            old(rng).spec_draws() < u64::MAX,
        ensures
            r.well_formed(),
            final(rng).spec_seed() == old(rng).spec_seed(),
            final(rng).spec_draws() == old(rng).spec_draws() + 1,
            old(rng).spec_seed() matches Some(s) ==> r.secret_key@ == crate::signer::seeded_secret(
                s,
                old(rng).spec_draws(),
            ),
    {
        let secret_key = rng.draw_secret_key();
        let public_key = secret_key.public();
        Secp256k1KeyPair { secret_key, public_key }
    }

    /// Returns the public key of the pair.
    pub fn public(&self) -> (r: &Secp256k1PublicKey)
        ensures
            *r == self.public_key,
    {
        &self.public_key
    }
}

/// A secp256k1 ECDSA signature, held in 64-byte compact form.
#[derive(Debug)]
pub struct Secp256k1Signature {
    bytes: Vec<u8>,
}

impl View for Secp256k1Signature {
    type V = Seq<u8>;

    closed spec fn view(&self) -> Seq<u8> {
        self.bytes@
    }
}

impl Secp256k1Signature {
    #[verifier::type_invariant]
    closed spec fn type_wf(self) -> bool {
        self.bytes@.len() == 64 && valid_compact_sig(self.bytes@)
    }

    /// Computes a signature over `value` with `secret`: the value is
    /// canonically hashed under its type tag and the digest is signed
    /// deterministically.
    pub fn new<T: Signable>(value: &T, secret: &Secp256k1SecretKey) -> (r: Secp256k1Signature)
        ensures
            r@ == ecdsa_sign_of(hash_of(*value), secret@),
            ecdsa_valid(r@, hash_of(*value), public_of(secret@)),
    {
        let digest = CryptoHash::new(value);
        let db = digest.as_bytes();
        let bytes = ecdsa_sign(&db, secret.secret_bytes());
        Secp256k1Signature { bytes }
    }

    /// Checks the signature over `value` against `author`: succeeds
    /// exactly when the signature verifies for the recomputed
    /// domain-separated digest under `author`; the error carries the
    /// verification library's message and the declared type name.
    pub fn check<T: Signable>(&self, value: &T, author: &Secp256k1PublicKey) -> (r: Result<
        (),
        CryptoError,
    >)
        ensures
            r is Ok <==> ecdsa_valid(self@, hash_of(*value), author@),
            r matches Err(e) ==> e matches CryptoError::InvalidSignature { .. },
    {
        proof {
            use_type_invariant(self);
            use_type_invariant(author);
        }
        let digest = CryptoHash::new(value);
        let db = digest.as_bytes();
        match ecdsa_check(&self.bytes, &db, &author.bytes) {
            Ok(()) => Ok(()),
            Err(error) => Err(
                CryptoError::InvalidSignature { error, declared_type: T::declared_name() },
            ),
        }
    }

    /// Verifies a batch of signatures over one value: the digest is
    /// computed once, every pair is checked against it, and the first
    /// failing pair stops the batch and is identified, by position, in
    /// the error. Succeeds exactly when every pair verifies.
    pub fn verify_batch<T: Signable>(
        value: &T,
        votes: &Vec<(Secp256k1PublicKey, Secp256k1Signature)>,
    ) -> (r: Result<(), CryptoError>)
        ensures
            r is Ok <==> (forall|i: int|
                0 <= i < votes@.len() ==> ecdsa_valid(
                    #[trigger] votes@[i].1@,
                    hash_of(*value),
                    votes@[i].0@,
                )),
            r matches Err(e) ==> (e matches CryptoError::InvalidBatchSignature { index, .. }
                && 0 <= index < votes@.len() && !ecdsa_valid(
                votes@[index as int].1@,
                hash_of(*value),
                votes@[index as int].0@,
            ) && (forall|j: int|
                0 <= j < index ==> ecdsa_valid(
                    #[trigger] votes@[j].1@,
                    hash_of(*value),
                    votes@[j].0@,
                ))),
    {
        let digest = CryptoHash::new(value);
        let db = digest.as_bytes();
        let mut i: usize = 0;
        while i < votes.len()
            invariant
                0 <= i <= votes@.len(),
                digest@ == hash_of(*value),
                db@ == digest@,
                db@.len() == 32,
                forall|j: int|
                    0 <= j < i ==> ecdsa_valid(
                        #[trigger] votes@[j].1@,
                        hash_of(*value),
                        votes@[j].0@,
                    ),
            decreases votes@.len() - i,
        {
            let pair = &votes[i];
            proof {
                use_type_invariant(&pair.0);
                use_type_invariant(&pair.1);
            }
            match ecdsa_check(&pair.1.bytes, &db, &pair.0.bytes) {
                Ok(()) => {},
                Err(error) => {
                    proof {
                        assert(!ecdsa_valid(
                            votes@[i as int].1@,
                            hash_of(*value),
                            votes@[i as int].0@,
                        ));
                    }
                    return Err(
                        CryptoError::InvalidBatchSignature {
                            index: i,
                            error,
                            declared_type: T::declared_name(),
                        },
                    );
                },
            }
            i = i + 1;
        }
        Ok(())
    }

    /// The 64-byte compact form.
    pub fn as_bytes(&self) -> (r: &Vec<u8>)
        ensures
            r@ == self@,
            r@.len() == 64,
    {
        proof {
            use_type_invariant(self);
        }
        &self.bytes
    }

    /// Wraps a 64-byte compact encoding; fails exactly on bytes that
    /// `secp256k1` refuses.
    pub fn from_compact(bytes: &Vec<u8>) -> (r: Result<Secp256k1Signature, CryptoError>)
        ensures
            r is Ok <==> valid_compact_sig(bytes@),
            r matches Ok(s) ==> s@ == bytes@,
            r matches Err(e) ==> e == CryptoError::InvalidSignatureEncoding,
    {
        match parse_compact(bytes) {
            Some(v) => Ok(Secp256k1Signature { bytes: v }),
            None => Err(CryptoError::InvalidSignatureEncoding),
        }
    }

    /// The DER encoding of the signature.
    pub fn to_der(&self) -> (r: Vec<u8>)
        ensures
            r@ == der_of(self@),
    {
        proof {
            use_type_invariant(self);
        }
        compact_to_der(&self.bytes)
    }

    /// Parses a DER encoding; on canonical input the inverse of
    /// [`Secp256k1Signature::to_der`]: a signature's own DER bytes decode
    /// back to exactly that signature. The underlying parser also admits
    /// some non-canonical spellings, of which only a valid result is
    /// promised.
    pub fn from_der(bytes: &Vec<u8>) -> (r: Result<Secp256k1Signature, CryptoError>)
        ensures
            r matches Ok(s) ==> (forall|c: Seq<u8>|
                valid_compact_sig(c) && #[trigger] der_of(c) == bytes@ ==> c == s@),
            r is Err ==> (forall|c: Seq<u8>|
                !(valid_compact_sig(c) && #[trigger] der_of(c) == bytes@)),
            r matches Err(e) ==> e == CryptoError::InvalidSignatureEncoding,
    {
        match der_to_compact(bytes) {
            Some(v) => Ok(Secp256k1Signature { bytes: v }),
            None => Err(CryptoError::InvalidSignatureEncoding),
        }
    }

    /// The lowercase hexadecimal rendering of the DER encoding, used by
    /// human-readable formats.
    pub fn to_hex(&self) -> (r: String)
        ensures
            r@ == hex_of(der_of(self@)),
    {
        let der = self.to_der();
        hex_encode(&der)
    }

    /// Parses the hexadecimal DER rendering; on canonical input the
    /// inverse of [`Secp256k1Signature::to_hex`]: a signature's own
    /// rendering decodes back to exactly that signature.
    pub fn from_hex(s: &str) -> (r: Result<Secp256k1Signature, CryptoError>)
        ensures
            r matches Ok(sig) ==> valid_hex(s@),
            r matches Ok(sig) ==> (forall|c: Seq<u8>|
                valid_compact_sig(c) && #[trigger] der_of(c) == hex_bytes_of(s@) ==> c == sig@),
            r is Err ==> !valid_hex(s@) || (forall|c: Seq<u8>|
                !(valid_compact_sig(c) && #[trigger] der_of(c) == hex_bytes_of(s@))),
            r matches Err(e) ==> e == CryptoError::InvalidSignatureEncoding,
    {
        match hex_decode(s) {
            Some(v) => Secp256k1Signature::from_der(&v),
            None => Err(CryptoError::InvalidSignatureEncoding),
        }
    }
}

impl Clone for Secp256k1Signature {
    fn clone(&self) -> (r: Self)
        ensures
            r@ == self@,
    {
        proof {
            use_type_invariant(self);
        }
        let mut bytes: Vec<u8> = Vec::new();
        let mut i: usize = 0;
        while i < self.bytes.len()
            invariant
                0 <= i <= self.bytes@.len(),
                bytes@ =~= self.bytes@.take(i as int),
            decreases self.bytes@.len() - i,
        {
            bytes.push(self.bytes[i]);
            proof {
                assert(bytes@ =~= self.bytes@.take(i + 1 as int));
            }
            i = i + 1;
        }
        proof {
            assert(bytes@ =~= self.bytes@);
        }
        Secp256k1Signature { bytes }
    }
}

impl PartialEq for Secp256k1Signature {
    fn eq(&self, other: &Self) -> (r: bool) {
        proof {
            use_type_invariant(self);
            use_type_invariant(other);
        }
        let mut i: usize = 0;
        while i < 64
            invariant
                0 <= i <= 64,
                self.bytes@.len() == 64,
                other.bytes@.len() == 64,
                forall|j: int| 0 <= j < i ==> self.bytes@[j] == other.bytes@[j],
            decreases 64 - i,
        {
            if self.bytes[i] != other.bytes[i] {
                return false;
            }
            i = i + 1;
        }
        proof {
            assert(self.bytes@ =~= other.bytes@);
        }
        true
    }
}

impl vstd::std_specs::cmp::PartialEqSpecImpl for Secp256k1Signature {
    open spec fn obeys_eq_spec() -> bool {
        true
    }

    open spec fn eq_spec(&self, other: &Self) -> bool {
        self@ == other@
    }
}

impl Eq for Secp256k1Signature {

}

} // verus!
