//! The signer capability and its in-memory reference implementation: a
//! keyring from account owners to secret keys, with a deterministic,
//! replayable generator for key creation and a byte-exact persistence
//! format.

use vstd::prelude::*;

use crate::data_types::AccountOwner;
use crate::encoding::{
    enc_bytes, enc_u64, lemma_enc_u64_injective, read_bytes, read_u64, read_u8, write_bytes,
    write_u64,
};
use crate::hashing::{sha256, sha256_of, CryptoHash};
use crate::signing::{
    clamp, clamp_scalar, ecdsa_sign_of, ecdsa_valid, os_random_32, public_of, scalar_is_valid,
    valid_scalar, Secp256k1PublicKey, Secp256k1SecretKey, Secp256k1Signature,
};

verus! {

/// The secret drawn at step `k` from a generator seeded with `seed`: the
/// clamped SHA-256 digest of the seed and the step counter. Replaying the
/// same seed and counter reproduces the same secret on any machine.
pub open spec fn seeded_secret(seed: u64, k: u64) -> Seq<u8> {
    clamp_scalar(sha256_of(enc_u64(seed) + enc_u64(k)))
}

/// The deterministic pseudorandom generator behind key creation: seeded
/// once at construction, one counted draw per key. An unseeded generator
/// draws from the operating system's entropy instead.
pub struct Prng {
    seed: Option<u64>,
    draws: u64,
}

impl Prng {
    /// The seed the generator was created with, if any.
    pub closed spec fn spec_seed(&self) -> Option<u64> {
        self.seed
    }

    /// How many draws have been made so far.
    pub closed spec fn spec_draws(&self) -> u64 {
        self.draws
    }

    /// A generator seeded with `seed` after `draws` draws: constructing
    /// it replays exactly `draws` generator steps, so the future key
    /// stream continues an uninterrupted run. With `None`, system entropy
    /// is drawn and the counter only records use.
    pub fn new(seed: Option<u64>, draws: u64) -> (r: Prng)
        ensures
            r.spec_seed() == seed,
            r.spec_draws() == draws,
    {
        Prng { seed, draws }
    }

    /// Draws the next secret key and advances the counter by one. The
    /// counter overflowing would be an invariant violation far beyond any
    /// normal use, so such a state is ruled out rather than handled.
    pub fn draw_secret_key(&mut self) -> (r: Secp256k1SecretKey)
        requires
            old(self).spec_draws() < u64::MAX,
        ensures
            final(self).spec_seed() == old(self).spec_seed(),
            final(self).spec_draws() == old(self).spec_draws() + 1,
            old(self).spec_seed() matches Some(s) ==> r@ == seeded_secret(
                s,
                old(self).spec_draws(),
            ),
            r@.len() == 32,
            valid_scalar(r@),
    {
        let raw: Vec<u8> = match &self.seed {
            Some(s) => {
                let mut buf: Vec<u8> = Vec::new();
                write_u64(&mut buf, *s);
                write_u64(&mut buf, self.draws);
                sha256(&buf)
            },
            None => os_random_32(),
        };
        let clamped = clamp(&raw);
        let ok = scalar_is_valid(&clamped);
        proof {
            assert(ok);
        }
        self.draws = self.draws + 1;
        match Secp256k1SecretKey::try_from_bytes(clamped) {
            Some(k) => k,
            None => vstd::pervasive::unreached(),
        }
    }
}

/// Whether a keyring entry sequence, as (owner digest, secret scalar)
/// pairs, is shaped as the signer produces it: 32-byte owners and valid
/// 32-byte secrets.
pub open spec fn wf_entries(keys: Seq<(Seq<u8>, Seq<u8>)>) -> bool {
    forall|i: int|
        0 <= i < keys.len() ==> (#[trigger] keys[i]).0.len() == 32 && keys[i].1.len() == 32
            && valid_scalar(keys[i].1)
}

/// Whether some entry carries this owner; the entry added last wins a
/// lookup.
pub open spec fn contains_owner(entries: Seq<(Seq<u8>, Seq<u8>)>, owner: Seq<u8>) -> bool
    decreases entries.len(),
{
    if entries.len() == 0 {
        false
    } else if entries.last().0 == owner {
        true
    } else {
        contains_owner(entries.drop_last(), owner)
    }
}

/// The secret held for an owner: the one added last.
pub open spec fn lookup_secret(entries: Seq<(Seq<u8>, Seq<u8>)>, owner: Seq<u8>) -> Seq<u8>
    decreases entries.len(),
{
    if entries.len() == 0 {
        Seq::empty()
    } else if entries.last().0 == owner {
        entries.last().1
    } else {
        lookup_secret(entries.drop_last(), owner)
    }
}

/// The signing capability: sign by owner, look up a public key, test
/// ownership. An unknown owner gives an empty result, not an error: that
/// is expected control flow. The keyring is modelled as a sequence of
/// (owner digest, secret scalar) entries, the last entry for an owner
/// winning.
pub trait Signer {
    /// The keyring entries this signer holds.
    spec fn spec_entries(&self) -> Seq<(Seq<u8>, Seq<u8>)>;

    /// Signs the given content hash for `owner`: the digest is signed
    /// directly, it is already the canonical type-tagged identity of the
    /// content.
    fn sign(&self, owner: &AccountOwner, value: &CryptoHash) -> (r: Option<Secp256k1Signature>)
        ensures
            r is Some <==> contains_owner(self.spec_entries(), owner@),
            r matches Some(s) ==> s@ == ecdsa_sign_of(
                value@,
                lookup_secret(self.spec_entries(), owner@),
            ) && ecdsa_valid(
                s@,
                value@,
                public_of(lookup_secret(self.spec_entries(), owner@)),
            ),
    ;

    /// The public key held for `owner`.
    fn get_public(&self, owner: &AccountOwner) -> (r: Option<Secp256k1PublicKey>)
        ensures
            r is Some <==> contains_owner(self.spec_entries(), owner@),
            r matches Some(p) ==> p@ == public_of(lookup_secret(self.spec_entries(), owner@)),
    ;

    /// Whether `owner` is a known signer.
    fn contains_key(&self, owner: &AccountOwner) -> (r: bool)
        ensures
            r == contains_owner(self.spec_entries(), owner@),
    ;
}

/// The in-memory signer: a keyring from account owners to secret keys
/// plus the deterministic generator that created them. All types here are
/// immutable values but the keyring, which only grows.
pub struct InMemSigner {
    keys: Vec<(AccountOwner, Secp256k1SecretKey)>,
    prng: Prng,
}

/// A serialized signer that could not be decoded.
#[derive(Debug, PartialEq, Eq)]
pub enum SignerDecodeError {
    /// The bytes are not an exact signer encoding.
    Malformed,
}

/// One keyring entry: the owner digest and the secret scalar, each
/// length-prefixed.
pub open spec fn enc_entry(e: (Seq<u8>, Seq<u8>)) -> Seq<u8> {
    enc_bytes(e.0) + enc_bytes(e.1)
}

/// The concatenated encodings of all keyring entries.
pub open spec fn enc_entries(keys: Seq<(Seq<u8>, Seq<u8>)>) -> Seq<u8>
    decreases keys.len(),
{
    if keys.len() == 0 {
        Seq::empty()
    } else {
        enc_entries(keys.drop_last()) + enc_entry(keys.last())
    }
}

/// The seed: a presence byte, then the value.
pub open spec fn enc_seed(seed: Option<u64>) -> Seq<u8> {
    match seed {
        Option::None => seq![0u8],
        Option::Some(s) => seq![1u8] + enc_u64(s),
    }
}

/// The signer's persistence format: the original seed, the draw count,
/// then the generated keys themselves (not re-derived ones), counted.
pub open spec fn signer_enc(keys: Seq<(Seq<u8>, Seq<u8>)>, seed: Option<u64>, draws: u64) -> Seq<
    u8,
> {
    enc_seed(seed) + enc_u64(draws) + enc_u64(keys.len() as u64) + enc_entries(keys)
}

proof fn lemma_enc_entries_take(keys: Seq<(Seq<u8>, Seq<u8>)>, i: int)
    requires
        0 <= i < keys.len(),
    ensures
        enc_entries(keys.take(i + 1)) == enc_entries(keys.take(i)) + enc_entry(keys[i]),
{
    let t = keys.take(i + 1);
    assert(t.drop_last() =~= keys.take(i));
    assert(t.last() == keys[i]);
}

/// Every well-formed entry encodes to exactly 80 bytes, so a sequence of
/// them encodes to 80 bytes per entry.
proof fn lemma_enc_entries_len(keys: Seq<(Seq<u8>, Seq<u8>)>)
    requires
        wf_entries(keys),
    ensures
        enc_entries(keys).len() == 80 * keys.len(),
    decreases keys.len(),
{
    if keys.len() == 0 {
    } else {
        assert(wf_entries(keys.drop_last()));
        lemma_enc_entries_len(keys.drop_last());
    }
}


/// The entry encoding splits at any entry boundary.
proof fn lemma_enc_entries_split(keys: Seq<(Seq<u8>, Seq<u8>)>, j: int)
    requires
        0 <= j <= keys.len(),
    ensures
        enc_entries(keys) == enc_entries(keys.take(j)) + enc_entries(keys.skip(j)),
    decreases keys.len(),
{
    if j == keys.len() {
        assert(keys.take(j) =~= keys);
        assert(keys.skip(j) =~= Seq::<(Seq<u8>, Seq<u8>)>::empty());
        assert(enc_entries(keys) =~= enc_entries(keys.take(j)) + enc_entries(keys.skip(j)));
    } else {
        let p = keys.drop_last();
        lemma_enc_entries_split(p, j);
        assert(p.take(j) =~= keys.take(j));
        let sk = keys.skip(j);
        assert(sk.drop_last() =~= p.skip(j));
        assert(sk.last() == keys.last());
        assert(enc_entries(sk) == enc_entries(p.skip(j)) + enc_entry(keys.last()));
        assert(enc_entries(keys) =~= enc_entries(keys.take(j)) + enc_entries(keys.skip(j)));
    }
}

/// The first entry of a nonempty suffix stands at its front.
proof fn lemma_enc_entries_first(keys: Seq<(Seq<u8>, Seq<u8>)>, j: int)
    requires
        0 <= j < keys.len(),
    ensures
        enc_entries(keys.skip(j)) == enc_entry(keys[j]) + enc_entries(keys.skip(j + 1)),
{
    let sk = keys.skip(j);
    lemma_enc_entries_split(sk, 1);
    let single = sk.take(1);
    assert(single.len() == 1);
    assert(single.drop_last() =~= Seq::<(Seq<u8>, Seq<u8>)>::empty());
    assert(single.last() == keys[j]);
    assert(enc_entries(single) == enc_entries(single.drop_last()) + enc_entry(single.last()));
    assert(Seq::<u8>::empty() + enc_entry(keys[j]) =~= enc_entry(keys[j]));
    assert(sk.skip(1) =~= keys.skip(j + 1));
}



/// Whether `b` is the exact encoding of some well-formed signer state.
pub open spec fn is_signer_encoding(b: Seq<u8>) -> bool {
    exists|k: Seq<(Seq<u8>, Seq<u8>)>, se: Option<u64>, d: u64|
        b == signer_enc(k, se, d) && wf_entries(k) && k.len() <= u64::MAX
}

/// Where entry `j` sits inside an encoded entry region: its two
/// length-prefixed components, each 32 bytes.
#[verifier::rlimit(100)]
proof fn lemma_entry_window(whole: Seq<u8>, keys: Seq<(Seq<u8>, Seq<u8>)>, off: int, j: int)
    requires
        0 <= off,
        0 <= j < keys.len(),
        wf_entries(keys),
        whole.len() == off + 80 * keys.len(),
        whole.subrange(off, whole.len() as int) == enc_entries(keys),
    ensures
        off + 80 * j + 80 <= whole.len(),
        whole.subrange(off + 80 * j, off + 80 * j + 8) == enc_u64(32),
        whole.subrange(off + 80 * j + 8, off + 80 * j + 40) == keys[j].0,
        whole.subrange(off + 80 * j, off + 80 * j + 40) == enc_bytes(keys[j].0),
        whole.subrange(off + 80 * j + 40, off + 80 * j + 48) == enc_u64(32),
        whole.subrange(off + 80 * j + 48, off + 80 * j + 80) == keys[j].1,
        whole.subrange(off + 80 * j + 40, off + 80 * j + 80) == enc_bytes(keys[j].1),
{
    lemma_enc_entries_split(keys, j);
    lemma_enc_entries_first(keys, j);
    assert(wf_entries(keys.take(j))) by {
        assert(forall|i: int| 0 <= i < j ==> keys.take(j)[i] == keys[i]);
    }
    lemma_enc_entries_len(keys.take(j));
    lemma_enc_entries_len(keys);
    assert(keys.take(j).len() == j);
    let pos = off + 80 * j;
    let e = keys[j];
    assert(e.0.len() == 32 && e.1.len() == 32);
    let t = enc_entry(e);
    assert(t.len() == 80);
    let region = whole.subrange(off, whole.len() as int);
    assert(region == enc_entries(keys.take(j)) + t + enc_entries(keys.skip(j + 1))) by {
        assert(enc_entries(keys) == enc_entries(keys.take(j)) + enc_entries(keys.skip(j)));
        assert(enc_entries(keys.skip(j)) == t + enc_entries(keys.skip(j + 1)));
        assert(enc_entries(keys.take(j)) + (t + enc_entries(keys.skip(j + 1))) =~= enc_entries(
            keys.take(j),
        ) + t + enc_entries(keys.skip(j + 1)));
    }
    assert(whole.subrange(pos, pos + 80) =~= t) by {
        assert forall|m: int| 0 <= m < 80 implies whole.subrange(pos, pos + 80)[m] == t[m] by {
            assert(whole.subrange(pos, pos + 80)[m] == whole[pos + m]);
            assert(region[80 * j + m] == whole[off + 80 * j + m]);
            assert(region[80 * j + m] == t[m]);
        }
    }
    assert(t == enc_bytes(e.0) + enc_bytes(e.1));
    assert(enc_bytes(e.0) == enc_u64(e.0.len() as u64) + e.0);
    assert(e.0.len() as u64 == 32);
    assert(enc_bytes(e.1) == enc_u64(e.1.len() as u64) + e.1);
    assert(e.1.len() as u64 == 32);
    assert forall|m: int| 0 <= m < 80 implies whole[pos + m] == t[m] by {
        assert(whole.subrange(pos, pos + 80)[m] == whole[pos + m]);
    }
    assert(whole.subrange(pos, pos + 8) =~= enc_u64(32));
    assert(whole.subrange(pos + 8, pos + 40) =~= e.0) by {
        assert forall|m: int| 0 <= m < 32 implies whole.subrange(pos + 8, pos + 40)[m] == e.0[m] by {
            assert(whole.subrange(pos + 8, pos + 40)[m] == whole[pos + 8 + m]);
            assert(whole[pos + 8 + m] == t[8 + m]);
            assert(t[8 + m] == enc_bytes(e.0)[8 + m]);
            assert(enc_bytes(e.0)[8 + m] == e.0[m]);
        }
    }
    assert(whole.subrange(pos, pos + 40) =~= enc_bytes(e.0)) by {
        assert forall|m: int| 0 <= m < 40 implies whole.subrange(pos, pos + 40)[m] == enc_bytes(
            e.0,
        )[m] by {
            assert(whole.subrange(pos, pos + 40)[m] == whole[pos + m]);
            assert(whole[pos + m] == t[m]);
            assert(t[m] == enc_bytes(e.0)[m]);
        }
    }
    assert(whole.subrange(pos + 40, pos + 48) =~= enc_u64(32)) by {
        assert forall|m: int| 0 <= m < 8 implies whole.subrange(pos + 40, pos + 48)[m] == enc_u64(
            32,
        )[m] by {
            assert(whole.subrange(pos + 40, pos + 48)[m] == whole[pos + 40 + m]);
            assert(whole[pos + 40 + m] == t[40 + m]);
            assert(t[40 + m] == enc_bytes(e.1)[m]);
            assert(enc_bytes(e.1)[m] == enc_u64(32)[m]);
        }
    }
    assert(whole.subrange(pos + 48, pos + 80) =~= e.1) by {
        assert forall|m: int| 0 <= m < 32 implies whole.subrange(pos + 48, pos + 80)[m] == e.1[m] by {
            assert(whole.subrange(pos + 48, pos + 80)[m] == whole[pos + 48 + m]);
            assert(whole[pos + 48 + m] == t[48 + m]);
            assert(t[48 + m] == enc_bytes(e.1)[8 + m]);
            assert(enc_bytes(e.1)[8 + m] == e.1[m]);
        }
    }
    assert(whole.subrange(pos + 40, pos + 80) =~= enc_bytes(e.1)) by {
        assert forall|m: int| 0 <= m < 40 implies whole.subrange(pos + 40, pos + 80)[m]
            == enc_bytes(e.1)[m] by {
            assert(whole.subrange(pos + 40, pos + 80)[m] == whole[pos + 40 + m]);
            assert(whole[pos + 40 + m] == t[40 + m]);
            assert(t[40 + m] == enc_bytes(e.1)[m]);
        }
    }
}

/// Keyring determinism: the persistence format pins the signer's state
/// exactly. Equal serializations mean equal seed, equal draw count and
/// equal keys, so a signer reloaded from its own bytes continues the very
/// key stream of an uninterrupted run: key `k+1` is always
/// `public_of(seeded_secret(seed, k))`.
pub proof fn lemma_keyring_determinism(
    k1: Seq<(Seq<u8>, Seq<u8>)>,
    se1: Option<u64>,
    d1: u64,
    k2: Seq<(Seq<u8>, Seq<u8>)>,
    se2: Option<u64>,
    d2: u64,
)
    requires
        signer_enc(k1, se1, d1) == signer_enc(k2, se2, d2),
        wf_entries(k1),
        wf_entries(k2),
        k1.len() <= u64::MAX,
        k2.len() <= u64::MAX,
    ensures
        se1 == se2,
        d1 == d2,
        k1 == k2,
{
    let b1 = signer_enc(k1, se1, d1);
    let b2 = signer_enc(k2, se2, d2);
    assert(b1[0] == enc_seed(se1)[0] && b2[0] == enc_seed(se2)[0]);
    if se1 is Some && se2 is None || se1 is None && se2 is Some {
        assert(false);
    }
    let off: int = if se1 is Some {
        9
    } else {
        1
    };
    if se1 is Some && se2 is Some {
        let s1 = se1->0;
        let s2 = se2->0;
        assert(b1.subrange(1, 9) =~= enc_u64(s1));
        assert(b2.subrange(1, 9) =~= enc_u64(s2));
        lemma_enc_u64_injective(s1, s2);
    }
    assert(enc_seed(se1).len() == off && enc_seed(se2).len() == off);
    assert(b1.subrange(off, off + 8) =~= enc_u64(d1));
    assert(b2.subrange(off, off + 8) =~= enc_u64(d2));
    lemma_enc_u64_injective(d1, d2);
    assert(b1.subrange(off + 8, off + 16) =~= enc_u64(k1.len() as u64));
    assert(b2.subrange(off + 8, off + 16) =~= enc_u64(k2.len() as u64));
    lemma_enc_u64_injective(k1.len() as u64, k2.len() as u64);
    assert(k1.len() == k2.len());
    assert(b1.subrange(off + 16, b1.len() as int) =~= enc_entries(k1));
    assert(b2.subrange(off + 16, b2.len() as int) =~= enc_entries(k2));
    lemma_enc_entries_injective(k1, k2);
}

#[verifier::rlimit(100)]
proof fn lemma_enc_entries_injective(k1: Seq<(Seq<u8>, Seq<u8>)>, k2: Seq<(Seq<u8>, Seq<u8>)>)
    requires
        enc_entries(k1) == enc_entries(k2),
        wf_entries(k1),
        wf_entries(k2),
        k1.len() == k2.len(),
    ensures
        k1 == k2,
    decreases k1.len(),
{
    if k1.len() == 0 {
        assert(k1 =~= k2);
    } else {
        let p1 = k1.drop_last();
        let p2 = k2.drop_last();
        let e1 = k1.last();
        let e2 = k2.last();
        assert(wf_entries(p1) && wf_entries(p2));
        lemma_enc_entries_len(p1);
        lemma_enc_entries_len(p2);
        let b = enc_entries(k1);
        let n = enc_entries(p1).len() as int;
        assert(enc_entries(p1) =~= b.subrange(0, n));
        assert(enc_entries(p2) =~= b.subrange(0, n));
        lemma_enc_entries_injective(p1, p2);
        let t1 = enc_entry(e1);
        let t2 = enc_entry(e2);
        assert(t1 =~= b.subrange(n, b.len() as int));
        assert(t2 =~= b.subrange(n, b.len() as int));
        assert(e1.0 =~= t1.subrange(8, 40));
        assert(e2.0 =~= t2.subrange(8, 40));
        assert(e1.1 =~= t1.subrange(48, 80));
        assert(e2.1 =~= t2.subrange(48, 80));
        assert(e1.0 == e2.0 && e1.1 == e2.1);
        assert(e1 == e2);
        assert(k1 =~= p1.push(e1) && k2 =~= p2.push(e2));
    }
}

impl InMemSigner {
    /// The keyring entries, as (owner digest, secret scalar) pairs in
    /// insertion order.
    pub closed spec fn spec_keys(&self) -> Seq<(Seq<u8>, Seq<u8>)> {
        self.keys@.map_values(|p: (AccountOwner, Secp256k1SecretKey)| (p.0@, p.1@))
    }

    /// The seed the signer was created with.
    pub closed spec fn spec_seed(&self) -> Option<u64> {
        self.prng.spec_seed()
    }

    /// How many keys have been drawn from the generator.
    pub closed spec fn spec_draws(&self) -> u64 {
        self.prng.spec_draws()
    }

    /// Creates a new signer seeded with `prng_seed`. If it is `None`,
    /// keys are drawn from the operating system's entropy instead.
    pub fn new(prng_seed: Option<u64>) -> (r: InMemSigner)
        ensures
            r.spec_keys() == Seq::<(Seq<u8>, Seq<u8>)>::empty(),
            r.spec_seed() == prng_seed,
            r.spec_draws() == 0,
    {
        let r = InMemSigner { keys: Vec::new(), prng: Prng::new(prng_seed, 0) };
        proof {
            assert(r.spec_keys() =~= Seq::<(Seq<u8>, Seq<u8>)>::empty());
        }
        r
    }

    /// Builds a signer that holds the given (owner, secret) pairs, in
    /// order, with no seed: the way an existing key set is adopted. An
    /// owner listed twice keeps both entries; lookups take the one
    /// listed last.
    pub fn from_keys(keys: Vec<(AccountOwner, Secp256k1SecretKey)>) -> (r: InMemSigner)
        ensures
            r.spec_keys().len() == keys@.len(),
            forall|i: int|
                0 <= i < keys@.len() ==> r.spec_keys()[i] == ((#[trigger] keys@[i]).0@,
                keys@[i].1@),
            r.spec_seed() is None,
            r.spec_draws() == 0,
    {
        InMemSigner { keys, prng: Prng::new(None, 0) }
    }

    /// Generates a new key pair from the signer's generator, stores the
    /// secret under the owner derived from the public key, and returns
    /// the public key. With a seed, the new secret is exactly
    /// `seeded_secret(seed, draws)`: the deterministic key stream. An
    /// owner derived twice keeps both entries; lookups take the one
    /// added last.
    pub fn generate_new(&mut self) -> (r: Secp256k1PublicKey)
        requires
            old(self).spec_draws() < u64::MAX,
        ensures
            final(self).spec_seed() == old(self).spec_seed(),
            final(self).spec_draws() == old(self).spec_draws() + 1,
            final(self).spec_keys().len() == old(self).spec_keys().len() + 1,
            final(self).spec_keys().drop_last() == old(self).spec_keys(),
            final(self).spec_keys().last().0 == crate::hashing::hash_of(r),
            r@ == public_of(final(self).spec_keys().last().1),
            r@.len() == 33,
            valid_scalar(final(self).spec_keys().last().1),
            final(self).spec_keys().last().1.len() == 32,
            old(self).spec_seed() matches Some(s) ==> final(self).spec_keys().last().1
                == seeded_secret(s, old(self).spec_draws()),
    {
        let secret = self.prng.draw_secret_key();
        let public = secret.public();
        let owner = AccountOwner::from_public_key(&public);
        let ghost before = self.spec_keys();
        self.keys.push((owner, secret));
        proof {
            assert(self.spec_keys() =~= before.push((self.keys@.last().0@, self.keys@.last().1@)));
            assert(self.spec_keys().drop_last() =~= before);
        }
        public
    }

    /// How many draws the signer's generator has made: the counter that
    /// persistence stores beside the seed.
    pub fn draws(&self) -> (r: u64)
        ensures
            r == self.spec_draws(),
    {
        self.prng.draws
    }

    /// The index of the entry that a lookup of `owner` hits: the last one
    /// carrying it.
    fn find_entry(&self, owner: &AccountOwner) -> (r: Option<usize>)
        ensures
            r is Some <==> contains_owner(self.spec_keys(), owner@),
            r matches Some(j) ==> j < self.spec_keys().len() && self.spec_keys()[j as int].0
                == owner@ && self.spec_keys()[j as int].1 == lookup_secret(
                self.spec_keys(),
                owner@,
            ),
    {
        let ghost all = self.spec_keys();
        let mut i: usize = self.keys.len();
        proof {
            assert(all.take(i as int) =~= all);
        }
        while i > 0
            invariant
                0 <= i <= self.keys@.len(),
                all == self.spec_keys(),
                self.keys@.len() == all.len(),
                contains_owner(all, owner@) == contains_owner(all.take(i as int), owner@),
                contains_owner(all, owner@) ==> lookup_secret(all, owner@) == lookup_secret(
                    all.take(i as int),
                    owner@,
                ),
            decreases i,
        {
            i = i - 1;
            let ghost t = all.take(i + 1 as int);
            proof {
                assert(t.drop_last() =~= all.take(i as int));
                assert(t.last() == all[i as int]);
            }
            if self.keys[i].0.0.equals(&owner.0) {
                proof {
                    assert(all[i as int].0 == owner@);
                    assert(contains_owner(t, owner@));
                    assert(lookup_secret(t, owner@) == all[i as int].1);
                }
                return Some(i);
            }
            proof {
                assert(all[i as int].0 != owner@);
            }
        }
        proof {
            assert(all.take(0) =~= Seq::<(Seq<u8>, Seq<u8>)>::empty());
        }
        None
    }

    /// Serializes the signer: seed, draw count, and the actual generated
    /// secret keys, so that reloading replays the generator exactly.
    pub fn to_bytes(&self) -> (r: Vec<u8>)
        ensures
            r@ == signer_enc(self.spec_keys(), self.spec_seed(), self.spec_draws()),
    {
        let mut out: Vec<u8> = Vec::new();
        match self.prng.seed {
            None => out.push(0),
            Some(s) => {
                out.push(1);
                write_u64(&mut out, s);
            },
        }
        write_u64(&mut out, self.prng.draws);
        write_u64(&mut out, self.keys.len() as u64);
        let ghost head = out@;
        let ghost all = self.spec_keys();
        let mut i: usize = 0;
        while i < self.keys.len()
            invariant
                0 <= i <= self.keys@.len(),
                all == self.spec_keys(),
                self.keys@.len() == all.len(),
                out@ == head + enc_entries(all.take(i as int)),
            decreases self.keys@.len() - i,
        {
            let entry = &self.keys[i];
            let ob = entry.0.0.as_bytes();
            write_bytes(&mut out, ob.as_slice());
            write_bytes(&mut out, entry.1.secret_bytes().as_slice());
            proof {
                lemma_enc_entries_take(all, i as int);
                assert(out@ =~= head + enc_entries(all.take(i + 1 as int)));
            }
            i = i + 1;
        }
        proof {
            assert(all.take(all.len() as int) =~= all);
            assert(out@ =~= signer_enc(self.spec_keys(), self.spec_seed(), self.spec_draws()));
        }
        out
    }

    /// Decodes a serialized signer: it accepts exactly the byte-exact
    /// encodings of well-formed signer states. Any accepted input is the
    /// encoding of the returned signer (nothing is repaired or skipped,
    /// trailing bytes are refused), and every exact encoding of a
    /// well-formed state is accepted.
    #[verifier::rlimit(100)]
    pub fn from_bytes(bytes: &[u8]) -> (r: Result<InMemSigner, SignerDecodeError>)
        ensures
            r matches Ok(s) ==> bytes@ == signer_enc(s.spec_keys(), s.spec_seed(), s.spec_draws())
                && wf_entries(s.spec_keys()),
            is_signer_encoding(bytes@) ==> r is Ok,
    {
        let ghost input = bytes@;
        let ghost good = is_signer_encoding(bytes@);
        let ghost (gk, gse, gd): (Seq<(Seq<u8>, Seq<u8>)>, Option<u64>, u64) = if good {
            choose|k: Seq<(Seq<u8>, Seq<u8>)>, se: Option<u64>, d: u64|
                bytes@ == signer_enc(k, se, d) && wf_entries(k) && k.len() <= u64::MAX
        } else {
            vstd::pervasive::arbitrary()
        };
        let ghost goff: int = if gse is Some {
            9
        } else {
            1
        };
        proof {
            if good {
                lemma_enc_entries_len(gk);
                assert(enc_seed(gse).len() == goff);
                assert(input.len() == goff + 16 + 80 * gk.len());
                assert(input[0] == enc_seed(gse)[0]);
            }
        }
        let (tag, p1) = match read_u8(bytes, 0) {
            Some(x) => x,
            None => {
                proof {
                    if good {
                        assert(false);
                    }
                }
                return Err(SignerDecodeError::Malformed);
            },
        };
        proof {
            assert(input.subrange(0, 1)[0] == input[0]);
            assert(tag == input[0]);
        }
        let (seed, p2): (Option<u64>, usize) = if tag == 0 {
            proof {
                if good && gse is Some {
                    assert(input[0] == 1);
                    assert(false);
                }
            }
            (None, p1)
        } else if tag == 1 {
            proof {
                if good && gse is None {
                    assert(input[0] == 0);
                    assert(false);
                }
            }
            match read_u64(bytes, p1) {
                Some((sv, p)) => {
                    proof {
                        if good {
                            assert(input.subrange(1, 9) =~= enc_u64(gse->0));
                            lemma_enc_u64_injective(sv, gse->0);
                        }
                    }
                    (Some(sv), p)
                },
                None => {
                    proof {
                        if good {
                            assert(false);
                        }
                    }
                    return Err(SignerDecodeError::Malformed);
                },
            }
        } else {
            proof {
                if good {
                    assert(input[0] == 0 || input[0] == 1);
                    assert(false);
                }
            }
            return Err(SignerDecodeError::Malformed);
        };
        proof {
            assert(input.subrange(0, p2 as int) =~= enc_seed(seed));
            if good {
                assert(seed == gse && p2 as int == goff);
            }
        }
        let (draws, p3) = match read_u64(bytes, p2) {
            Some(x) => x,
            None => {
                proof {
                    if good {
                        assert(false);
                    }
                }
                return Err(SignerDecodeError::Malformed);
            },
        };
        let (count, p4) = match read_u64(bytes, p3) {
            Some(x) => x,
            None => {
                proof {
                    if good {
                        assert(false);
                    }
                }
                return Err(SignerDecodeError::Malformed);
            },
        };
        proof {
            if good {
                assert(input.subrange(goff, goff + 8) =~= enc_u64(gd));
                lemma_enc_u64_injective(draws, gd);
                assert(input.subrange(goff + 8, goff + 16) =~= enc_u64(gk.len() as u64));
                lemma_enc_u64_injective(count, gk.len() as u64);
                assert(count == gk.len());
                assert(input.subrange(p4 as int, input.len() as int) =~= enc_entries(gk));
            }
        }
        let mut keys: Vec<(AccountOwner, Secp256k1SecretKey)> = Vec::new();
        let mut pos: usize = p4;
        let mut j: u64 = 0;
        proof {
            assert(keys@.map_values(|p: (AccountOwner, Secp256k1SecretKey)| (p.0@, p.1@)) =~= Seq::<
                (Seq<u8>, Seq<u8>),
            >::empty());
            if good {
                assert(gk.take(0) =~= Seq::<(Seq<u8>, Seq<u8>)>::empty());
            }
        }
        while j < count
            invariant
                0 <= j <= count,
                p4 <= pos <= input.len(),
                bytes@ == input,
                good == is_signer_encoding(bytes@),
                keys@.len() == j,
                wf_entries(keys@.map_values(|p: (AccountOwner, Secp256k1SecretKey)| (p.0@, p.1@))),
                input.subrange(p4 as int, pos as int) == enc_entries(
                    keys@.map_values(|p: (AccountOwner, Secp256k1SecretKey)| (p.0@, p.1@)),
                ),
                good ==> (input == signer_enc(gk, gse, gd) && wf_entries(gk) && gk.len()
                    <= u64::MAX && count == gk.len() && input.len() == p4 + 80 * gk.len()
                    && input.subrange(p4 as int, input.len() as int) == enc_entries(gk)
                    && keys@.map_values(|p: (AccountOwner, Secp256k1SecretKey)| (p.0@, p.1@))
                    == gk.take(j as int) && pos == p4 + 80 * j),
            decreases count - j,
        {
            let ghost entries_before = keys@.map_values(
                |p: (AccountOwner, Secp256k1SecretKey)| (p.0@, p.1@),
            );
            proof {
                if good {
                    lemma_entry_window(input, gk, p4 as int, j as int);
                }
            }
            let (ob, q1) = match read_bytes(bytes, pos) {
                Some(x) => x,
                None => {
                    proof {
                        if good {
                            assert(pos as int == p4 + 80 * j);
                            assert(pos + 8 <= bytes@.len() && bytes@.subrange(
                                pos as int,
                                pos + 8,
                            ) == enc_u64(32u64) && pos + 8 + 32u64 <= bytes@.len());
                            assert(false);
                        }
                    }
                    return Err(SignerDecodeError::Malformed);
                },
            };
            proof {
                if good {
                    assert(pos as int == p4 + 80 * j);
                    let w = input.subrange(pos as int, q1 as int);
                    let eo = enc_u64(ob@.len() as u64);
                    assert(w == eo + ob@);
                    assert(input.subrange(pos as int, pos + 8) =~= eo) by {
                        assert forall|m: int|
                            0 <= m < 8 implies input.subrange(pos as int, pos + 8)[m] == eo[m] by {
                            assert(input.subrange(pos as int, pos + 8)[m] == input[pos + m]);
                            assert(w[m] == input[pos + m]);
                            assert(w[m] == eo[m]);
                        }
                    }
                    lemma_enc_u64_injective(ob@.len() as u64, 32);
                    assert(ob@.len() == 32);
                    assert(q1 == pos + 40);
                    assert(ob@ =~= input.subrange(pos + 8, pos + 40)) by {
                        assert forall|m: int|
                            0 <= m < 32 implies ob@[m] == input.subrange(pos + 8, pos + 40)[m] by {
                            assert(w[8 + m] == ob@[m]);
                            assert(w[8 + m] == input[pos + 8 + m]);
                            assert(input.subrange(pos + 8, pos + 40)[m] == input[pos + 8 + m]);
                        }
                    }
                    assert(ob@ == gk[j as int].0);
                }
            }
            if ob.len() != 32 {
                proof {
                    if good {
                        assert(ob@.len() == 32);
                        assert(false);
                    }
                }
                return Err(SignerDecodeError::Malformed);
            }
            let (sb, q2) = match read_bytes(bytes, q1) {
                Some(x) => x,
                None => {
                    proof {
                        if good {
                            assert(q1 as int == p4 + 80 * j + 40);
                            assert(q1 + 8 <= bytes@.len() && bytes@.subrange(q1 as int, q1 + 8)
                                == enc_u64(32u64) && q1 + 8 + 32u64 <= bytes@.len());
                            assert(false);
                        }
                    }
                    return Err(SignerDecodeError::Malformed);
                },
            };
            proof {
                if good {
                    assert(q1 as int == p4 + 80 * j + 40);
                    let w2 = input.subrange(q1 as int, q2 as int);
                    let es = enc_u64(sb@.len() as u64);
                    assert(w2 == es + sb@);
                    assert(input.subrange(q1 as int, q1 + 8) =~= es) by {
                        assert forall|m: int|
                            0 <= m < 8 implies input.subrange(q1 as int, q1 + 8)[m] == es[m] by {
                            assert(input.subrange(q1 as int, q1 + 8)[m] == input[q1 + m]);
                            assert(w2[m] == input[q1 + m]);
                            assert(w2[m] == es[m]);
                        }
                    }
                    lemma_enc_u64_injective(sb@.len() as u64, 32);
                    assert(sb@.len() == 32);
                    assert(q2 == pos + 80);
                    assert(sb@ =~= input.subrange(q1 + 8, q1 + 40)) by {
                        assert forall|m: int|
                            0 <= m < 32 implies sb@[m] == input.subrange(q1 + 8, q1 + 40)[m] by {
                            assert(w2[8 + m] == sb@[m]);
                            assert(w2[8 + m] == input[q1 + 8 + m]);
                            assert(input.subrange(q1 + 8, q1 + 40)[m] == input[q1 + 8 + m]);
                        }
                    }
                    assert(sb@ == gk[j as int].1);
                }
            }
            let ghost owner_bytes = ob@;
            let ghost secret_bytes = sb@;
            let owner = AccountOwner(CryptoHash::from_bytes(ob));
            let secret = match Secp256k1SecretKey::try_from_bytes(sb) {
                Some(k) => k,
                None => {
                    proof {
                        if good {
                            assert(valid_scalar(gk[j as int].1));
                            assert(false);
                        }
                    }
                    return Err(SignerDecodeError::Malformed);
                },
            };
            keys.push((owner, secret));
            proof {
                let entries_after = keys@.map_values(
                    |p: (AccountOwner, Secp256k1SecretKey)| (p.0@, p.1@),
                );
                assert(entries_after =~= entries_before.push((owner_bytes, secret_bytes)));
                assert(entries_after.drop_last() =~= entries_before);
                assert(input.subrange(pos as int, q2 as int) =~= enc_entry(
                    (owner_bytes, secret_bytes),
                ));
                assert(input.subrange(p4 as int, q2 as int) =~= input.subrange(
                    p4 as int,
                    pos as int,
                ) + input.subrange(pos as int, q2 as int));
                if good {
                    assert(entries_after =~= gk.take(j + 1 as int));
                }
            }
            pos = q2;
            j = j + 1;
        }
        if pos != bytes.len() {
            proof {
                if good {
                    assert(pos == p4 + 80 * gk.len());
                    assert(false);
                }
            }
            return Err(SignerDecodeError::Malformed);
        }
        let signer = InMemSigner { keys, prng: Prng::new(seed, draws) };
        proof {
            assert(input =~= enc_seed(seed) + enc_u64(draws) + enc_u64(count) + input.subrange(
                p4 as int,
                pos as int,
            ));
            assert(signer.spec_keys().len() as u64 == count);
            assert(input =~= signer_enc(
                signer.spec_keys(),
                signer.spec_seed(),
                signer.spec_draws(),
            ));
        }
        Ok(signer)
    }
}

impl Signer for InMemSigner {
    open spec fn spec_entries(&self) -> Seq<(Seq<u8>, Seq<u8>)> {
        self.spec_keys()
    }

    fn sign(&self, owner: &AccountOwner, value: &CryptoHash) -> (r: Option<Secp256k1Signature>) {
        match self.find_entry(owner) {
            Some(j) => Some(self.keys[j].1.sign_prehash(value)),
            None => None,
        }
    }

    fn get_public(&self, owner: &AccountOwner) -> (r: Option<Secp256k1PublicKey>) {
        match self.find_entry(owner) {
            Some(j) => Some(self.keys[j].1.public()),
            None => None,
        }
    }

    fn contains_key(&self, owner: &AccountOwner) -> (r: bool) {
        self.find_entry(owner).is_some()
    }
}

} // verus!
