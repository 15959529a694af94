//! Canonical content hashing: every hashed or signed value is serialized
//! under a length-prefixed type tag and digested into a 32-byte
//! [`CryptoHash`]; [`Hashed`] pairs a value with its claimed hash.

use vstd::prelude::*;

use crate::encoding::{enc_bytes, enc_u64, lemma_enc_u64_injective, read_u64, write_u64};

verus! {

/// The 32-byte digest that SHA-256 assigns to a byte string; a function of
/// the bytes alone, left abstract here.
pub uninterp spec fn sha256_of(b: Seq<u8>) -> Seq<u8>;

/// Relies on `sha2::Sha256::digest`: the digest depends on the input bytes
/// alone and is exactly 32 bytes long.
#[verifier::external_body]
pub(crate) fn sha256(b: &Vec<u8>) -> (r: Vec<u8>)
    ensures
        r@ == sha256_of(b@),
        r@.len() == 32,
{
    let digest: [u8; 32] = <sha2::Sha256 as sha2::Digest>::digest(b.as_slice()).into();
    digest.to_vec()
}

/// A value with a canonical, type-tagged byte serialization: the input to
/// content hashing and to signing.
pub trait Signable: Sized {
    /// The type tag: the declared type name embedded ahead of the field
    /// bytes, so that equal bytes under different declared types never
    /// share a digest input.
    spec fn type_tag() -> Seq<u8>;

    /// The canonical encoding of the value's fields.
    spec fn payload(&self) -> Seq<u8>;

    /// Appends the type tag to `out`.
    fn write_tag(out: &mut Vec<u8>)
        ensures
            final(out)@ == old(out)@ + Self::type_tag(),
    ;

    /// Appends the canonical field bytes to `out`.
    fn write_payload(&self, out: &mut Vec<u8>)
        ensures
            final(out)@ == old(out)@ + self.payload(),
    ;

    /// The declared type name, as rendered into authentication errors.
    fn declared_name() -> String;
}

/// The bytes that are digested for a value: its length-prefixed type tag
/// followed by its canonical field bytes.
pub open spec fn digest_input<T: Signable>(v: T) -> Seq<u8> {
    enc_bytes(T::type_tag()) + v.payload()
}

/// The canonical hash of a value, as a byte sequence.
pub open spec fn hash_of<T: Signable>(v: T) -> Seq<u8> {
    sha256_of(digest_input(v))
}

/// Distinct type tags give distinct digest inputs, whatever the payloads:
/// the domain separation that prevents one signed or hashed byte string
/// from standing for two declared types.
pub proof fn lemma_domain_separation<A: Signable, B: Signable>(a: A, b: B)
    requires
        A::type_tag() != B::type_tag(),
        A::type_tag().len() <= u64::MAX,
        B::type_tag().len() <= u64::MAX,
    ensures
        digest_input(a) != digest_input(b),
{
    let ta = A::type_tag();
    let tb = B::type_tag();
    let da = digest_input(a);
    let db = digest_input(b);
    if ta.len() == tb.len() {
        assert(exists|i: int| 0 <= i < ta.len() && ta[i] != tb[i]) by {
            if forall|i: int| 0 <= i < ta.len() ==> ta[i] == tb[i] {
                assert(ta =~= tb);
            }
        }
        let i = choose|i: int| 0 <= i < ta.len() && ta[i] != tb[i];
        assert(da[8 + i] == ta[i]);
        assert(db[8 + i] == tb[i]);
        assert(da != db);
    } else {
        let la = ta.len() as u64;
        let lb = tb.len() as u64;
        assert(exists|k: int| 0 <= k < 8 && enc_u64(la)[k] != enc_u64(lb)[k]) by {
            if forall|k: int| 0 <= k < 8 ==> enc_u64(la)[k] == enc_u64(lb)[k] {
                assert(enc_u64(la) =~= enc_u64(lb));
                lemma_enc_u64_injective(la, lb);
            }
        }
        let k = choose|k: int| 0 <= k < 8 && enc_u64(la)[k] != enc_u64(lb)[k];
        assert(da[k] == enc_u64(la)[k]);
        assert(db[k] == enc_u64(lb)[k]);
        assert(da != db);
    }
}

/// A 32-byte digest of a canonically serialized, type-tagged value: the
/// content identity that peers sign and compare. Held as four 64-bit
/// words; its byte view is their little-endian concatenation.
#[derive(Debug, Clone, Copy, PartialEq, Eq, Structural)]
pub struct CryptoHash {
    h0: u64,
    h1: u64,
    h2: u64,
    h3: u64,
}

impl View for CryptoHash {
    type V = Seq<u8>;

    closed spec fn view(&self) -> Seq<u8> {
        enc_u64(self.h0) + enc_u64(self.h1) + enc_u64(self.h2) + enc_u64(self.h3)
    }
}

/// Two hashes with the same byte view are the same hash.
pub proof fn lemma_hash_view_injective(a: CryptoHash, b: CryptoHash)
    ensures
        (a@ == b@) <==> a == b,
{
    if a@ == b@ {
        assert(enc_u64(a.h0) =~= a@.subrange(0, 8) && enc_u64(b.h0) =~= b@.subrange(0, 8));
        assert(enc_u64(a.h1) =~= a@.subrange(8, 16) && enc_u64(b.h1) =~= b@.subrange(8, 16));
        assert(enc_u64(a.h2) =~= a@.subrange(16, 24) && enc_u64(b.h2) =~= b@.subrange(16, 24));
        assert(enc_u64(a.h3) =~= a@.subrange(24, 32) && enc_u64(b.h3) =~= b@.subrange(24, 32));
        lemma_enc_u64_injective(a.h0, b.h0);
        lemma_enc_u64_injective(a.h1, b.h1);
        lemma_enc_u64_injective(a.h2, b.h2);
        lemma_enc_u64_injective(a.h3, b.h3);
    }
}

impl CryptoHash {
    /// Packs 32 digest bytes into a hash.
    fn pack(digest: &Vec<u8>) -> (r: CryptoHash)
        requires
            digest@.len() == 32,
        ensures
            r@ == digest@,
    {
        let (h0, _) = match read_u64(digest.as_slice(), 0) {
            Some(x) => x,
            None => vstd::pervasive::unreached(),
        };
        let (h1, _) = match read_u64(digest.as_slice(), 8) {
            Some(x) => x,
            None => vstd::pervasive::unreached(),
        };
        let (h2, _) = match read_u64(digest.as_slice(), 16) {
            Some(x) => x,
            None => vstd::pervasive::unreached(),
        };
        let (h3, _) = match read_u64(digest.as_slice(), 24) {
            Some(x) => x,
            None => vstd::pervasive::unreached(),
        };
        let r = CryptoHash { h0, h1, h2, h3 };
        proof {
            assert(r@ =~= digest@);
        }
        r
    }

    /// Computes the canonical, type-tagged digest of `value`.
    pub fn new<T: Signable>(value: &T) -> (r: CryptoHash)
        ensures
            r@ == hash_of(*value),
    {
        let mut tag: Vec<u8> = Vec::new();
        T::write_tag(&mut tag);
        let mut buf: Vec<u8> = Vec::new();
        write_u64(&mut buf, tag.len() as u64);
        buf.append(&mut tag);
        value.write_payload(&mut buf);
        proof {
            assert(buf@ =~= digest_input(*value));
        }
        let digest = sha256(&buf);
        CryptoHash::pack(&digest)
    }

    /// Wraps 32 raw digest bytes.
    pub fn from_bytes(bytes: Vec<u8>) -> (r: CryptoHash)
        requires
            bytes@.len() == 32,
        ensures
            r@ == bytes@,
    {
        CryptoHash::pack(&bytes)
    }

    /// The raw digest bytes.
    pub fn as_bytes(&self) -> (r: Vec<u8>)
        ensures
            r@ == self@,
            r@.len() == 32,
    {
        let mut out: Vec<u8> = Vec::new();
        write_u64(&mut out, self.h0);
        write_u64(&mut out, self.h1);
        write_u64(&mut out, self.h2);
        write_u64(&mut out, self.h3);
        proof {
            assert(out@ =~= self@);
        }
        out
    }

    /// Whether two hashes hold the same bytes.
    pub fn equals(&self, other: &CryptoHash) -> (r: bool)
        ensures
            r == (self@ == other@),
            r == (*self == *other),
    {
        proof {
            lemma_hash_view_injective(*self, *other);
        }
        self.h0 == other.h0 && self.h1 == other.h1 && self.h2 == other.h2 && self.h3 == other.h3
    }

    /// Appends the 32 digest bytes to `out`.
    pub fn write_into(&self, out: &mut Vec<u8>)
        ensures
            final(out)@ == old(out)@ + self@,
    {
        write_u64(out, self.h0);
        write_u64(out, self.h1);
        write_u64(out, self.h2);
        write_u64(out, self.h3);
        proof {
            assert(out@ =~= old(out)@ + self@);
        }
    }
}

/// An immutable (value, hash) pair. The checked constructor recomputes the
/// hash; the unchecked one trusts the caller and must be used only when the
/// hash's provenance was already verified upstream.
#[derive(Debug)]
pub struct Hashed<T> {
    value: T,
    hash: CryptoHash,
}

impl<T> Hashed<T> {
    /// The wrapped value.
    pub closed spec fn spec_value(self) -> T {
        self.value
    }

    /// The hash stored beside the value.
    pub closed spec fn spec_hash(self) -> CryptoHash {
        self.hash
    }

    /// Trusts the caller's `hash` without recomputation.
    pub fn unchecked_new(value: T, hash: CryptoHash) -> (r: Hashed<T>)
        ensures
            r.spec_value() == value,
            r.spec_hash() == hash,
    {
        Hashed { value, hash }
    }

    /// A reference to the wrapped value.
    pub fn inner(&self) -> (r: &T)
        ensures
            *r == self.spec_value(),
    {
        &self.value
    }

    /// Consumes the pair, returning the wrapped value.
    pub fn into_inner(self) -> (r: T)
        ensures
            r == self.spec_value(),
    {
        self.value
    }

    /// The stored hash.
    pub fn hash(&self) -> (r: CryptoHash)
        ensures
            r == self.spec_hash(),
    {
        self.hash
    }
}

impl<T: Signable> Hashed<T> {
    /// Whether the stored hash is the canonical hash of the stored value.
    pub open spec fn is_valid(self) -> bool {
        self.spec_hash()@ == hash_of(self.spec_value())
    }

    /// Computes and stores the canonical hash of `value`: the
    /// authoritative construction path.
    pub fn new(value: T) -> (r: Hashed<T>)
        ensures
            r.spec_value() == value,
            r.spec_hash()@ == hash_of(value),
            r.is_valid(),
    {
        let hash = CryptoHash::new(&value);
        Hashed { value, hash }
    }
}

/// A string under its own type tag: the smallest signable value, used to
/// exercise signing end to end.
#[derive(Debug)]
pub struct TestString(pub String);

impl Signable for TestString {
    open spec fn type_tag() -> Seq<u8> {
        // "TestString"
        seq![84u8, 101u8, 115u8, 116u8, 83u8, 116u8, 114u8, 105u8, 110u8, 103u8]
    }

    open spec fn payload(&self) -> Seq<u8> {
        enc_bytes(vstd::utf8::encode_utf8(self.0@))
    }

    fn write_tag(out: &mut Vec<u8>) {
        out.push(84);
        out.push(101);
        out.push(115);
        out.push(116);
        out.push(83);
        out.push(116);
        out.push(114);
        out.push(105);
        out.push(110);
        out.push(103);
        proof {
            assert(out@ =~= old(out)@ + Self::type_tag());
        }
    }

    fn write_payload(&self, out: &mut Vec<u8>) {
        let bs = self.0.as_str().as_bytes();
        crate::encoding::write_bytes(out, bs);
    }

    fn declared_name() -> String {
        "TestString".to_owned()
    }
}

} // verus!
