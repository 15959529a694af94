//! The block data model: a header carrying metadata and five derived
//! section hashes, a body carrying the sections themselves, and the
//! certificate values (`ValidatedBlock`, `ConfirmedBlock`, `Timeout`)
//! that validators sign, each hashed under its own type tag.

use vstd::prelude::*;

use crate::data_types::{
    enc_blob_list, enc_bundle_list, enc_event_row_list, enc_opt_hash, enc_opt_owner,
    enc_operation_list, enc_oracle_row_list, enc_out_msg_row_list, posted_of,
    spec_has_destination, write_blob_list, write_bundle_list, write_event_row_list,
    write_opt_hash, write_opt_owner, write_operation_list, write_oracle_row_list,
    write_out_msg_row_list, AccountOwner, Blob, BlobId, BlobType, BlockExecutionOutcome,
    ChainId, Epoch, EventRecord, IncomingBundle, Medium, Message, MessageAction, MessageBundle,
    MessageId, OpenChainConfig, Operation, OracleResponse, OutgoingMessage, PostedMessage,
    SystemMessage, SystemOperation, Timestamp, Transaction,
};
use crate::data_types::BlockHeight;
use crate::encoding::{enc_bytes, enc_u32, enc_u64, write_u32, write_u64};
use crate::hashing::{
    digest_input, hash_of, lemma_domain_separation, lemma_hash_view_injective, sha256, sha256_of,
    CryptoHash, Hashed, Signable,
};

verus! {

/// Errors of block validation and certificate rehydration.
#[derive(Debug)]
pub enum ChainError {
    /// The serialized proposal exceeds the size limit.
    BlockProposalTooLarge,
    /// An untrusted value's claimed hash disagrees with recomputation.
    CertificateValueHashMismatch { expected: CryptoHash, actual: CryptoHash },
}

/// The type tag of the bundles section.
pub open spec fn bundles_tag() -> Seq<u8> {
    // "IncomingBundles"
    seq![73u8, 110u8, 99u8, 111u8, 109u8, 105u8, 110u8, 103u8, 66u8, 117u8, 110u8, 100u8, 108u8, 101u8, 115u8]
}

/// The canonical hash of the bundles section: its tagged, counted
/// encoding, digested.
pub open spec fn bundles_commitment(s: Seq<IncomingBundle>) -> Seq<u8> {
    sha256_of(enc_bytes(bundles_tag()) + enc_bundle_list(s))
}

fn hash_bundles(v: &Vec<IncomingBundle>) -> (r: CryptoHash)
    ensures
        r@ == bundles_commitment(v@),
{
    let mut buf: Vec<u8> = Vec::new();
    write_u64(&mut buf, 15);
    buf.push(73);
    buf.push(110);
    buf.push(99);
    buf.push(111);
    buf.push(109);
    buf.push(105);
    buf.push(110);
    buf.push(103);
    buf.push(66);
    buf.push(117);
    buf.push(110);
    buf.push(100);
    buf.push(108);
    buf.push(101);
    buf.push(115);
    write_bundle_list(&mut buf, v);
    proof {
        assert(buf@ =~= enc_bytes(bundles_tag()) + enc_bundle_list(v@));
    }
    let d = sha256(&buf);
    CryptoHash::from_bytes(d)
}

/// The type tag of the operations section.
pub open spec fn operations_tag() -> Seq<u8> {
    // "Operations"
    seq![79u8, 112u8, 101u8, 114u8, 97u8, 116u8, 105u8, 111u8, 110u8, 115u8]
}

/// The canonical hash of the operations section: its tagged, counted
/// encoding, digested.
pub open spec fn operations_commitment(s: Seq<Operation>) -> Seq<u8> {
    sha256_of(enc_bytes(operations_tag()) + enc_operation_list(s))
}

fn hash_operations(v: &Vec<Operation>) -> (r: CryptoHash)
    ensures
        r@ == operations_commitment(v@),
{
    let mut buf: Vec<u8> = Vec::new();
    write_u64(&mut buf, 10);
    buf.push(79);
    buf.push(112);
    buf.push(101);
    buf.push(114);
    buf.push(97);
    buf.push(116);
    buf.push(105);
    buf.push(111);
    buf.push(110);
    buf.push(115);
    write_operation_list(&mut buf, v);
    proof {
        assert(buf@ =~= enc_bytes(operations_tag()) + enc_operation_list(v@));
    }
    let d = sha256(&buf);
    CryptoHash::from_bytes(d)
}

/// The type tag of the messages section.
pub open spec fn messages_tag() -> Seq<u8> {
    // "OutgoingMessages"
    seq![79u8, 117u8, 116u8, 103u8, 111u8, 105u8, 110u8, 103u8, 77u8, 101u8, 115u8, 115u8, 97u8, 103u8, 101u8, 115u8]
}

/// The canonical hash of the messages section: its tagged, counted
/// encoding, digested.
pub open spec fn messages_commitment(s: Seq<Vec<OutgoingMessage>>) -> Seq<u8> {
    sha256_of(enc_bytes(messages_tag()) + enc_out_msg_row_list(s))
}

fn hash_messages(v: &Vec<Vec<OutgoingMessage>>) -> (r: CryptoHash)
    ensures
        r@ == messages_commitment(v@),
{
    let mut buf: Vec<u8> = Vec::new();
    write_u64(&mut buf, 16);
    buf.push(79);
    buf.push(117);
    buf.push(116);
    buf.push(103);
    buf.push(111);
    buf.push(105);
    buf.push(110);
    buf.push(103);
    buf.push(77);
    buf.push(101);
    buf.push(115);
    buf.push(115);
    buf.push(97);
    buf.push(103);
    buf.push(101);
    buf.push(115);
    write_out_msg_row_list(&mut buf, v);
    proof {
        assert(buf@ =~= enc_bytes(messages_tag()) + enc_out_msg_row_list(v@));
    }
    let d = sha256(&buf);
    CryptoHash::from_bytes(d)
}

/// The type tag of the oracle_responses section.
pub open spec fn oracle_responses_tag() -> Seq<u8> {
    // "OracleResponses"
    seq![79u8, 114u8, 97u8, 99u8, 108u8, 101u8, 82u8, 101u8, 115u8, 112u8, 111u8, 110u8, 115u8, 101u8, 115u8]
}

/// The canonical hash of the oracle_responses section: its tagged, counted
/// encoding, digested.
pub open spec fn oracle_responses_commitment(s: Seq<Vec<OracleResponse>>) -> Seq<u8> {
    sha256_of(enc_bytes(oracle_responses_tag()) + enc_oracle_row_list(s))
}

fn hash_oracle_responses(v: &Vec<Vec<OracleResponse>>) -> (r: CryptoHash)
    ensures
        r@ == oracle_responses_commitment(v@),
{
    let mut buf: Vec<u8> = Vec::new();
    write_u64(&mut buf, 15);
    buf.push(79);
    buf.push(114);
    buf.push(97);
    buf.push(99);
    buf.push(108);
    buf.push(101);
    buf.push(82);
    buf.push(101);
    buf.push(115);
    buf.push(112);
    buf.push(111);
    buf.push(110);
    buf.push(115);
    buf.push(101);
    buf.push(115);
    write_oracle_row_list(&mut buf, v);
    proof {
        assert(buf@ =~= enc_bytes(oracle_responses_tag()) + enc_oracle_row_list(v@));
    }
    let d = sha256(&buf);
    CryptoHash::from_bytes(d)
}

/// The type tag of the events section.
pub open spec fn events_tag() -> Seq<u8> {
    // "Events"
    seq![69u8, 118u8, 101u8, 110u8, 116u8, 115u8]
}

/// The canonical hash of the events section: its tagged, counted
/// encoding, digested.
pub open spec fn events_commitment(s: Seq<Vec<EventRecord>>) -> Seq<u8> {
    sha256_of(enc_bytes(events_tag()) + enc_event_row_list(s))
}

fn hash_events(v: &Vec<Vec<EventRecord>>) -> (r: CryptoHash)
    ensures
        r@ == events_commitment(v@),
{
    let mut buf: Vec<u8> = Vec::new();
    write_u64(&mut buf, 6);
    buf.push(69);
    buf.push(118);
    buf.push(101);
    buf.push(110);
    buf.push(116);
    buf.push(115);
    write_event_row_list(&mut buf, v);
    proof {
        assert(buf@ =~= enc_bytes(events_tag()) + enc_event_row_list(v@));
    }
    let d = sha256(&buf);
    CryptoHash::from_bytes(d)
}

/// The metadata of a block, with the five derived hashes that commit to
/// the body's sections.
#[derive(Debug, Clone, Copy)]
pub struct BlockHeader {
    pub version: u8,
    pub chain_id: ChainId,
    pub epoch: Epoch,
    pub height: BlockHeight,
    pub timestamp: Timestamp,
    pub state_hash: CryptoHash,
    pub previous_block_hash: Option<CryptoHash>,
    pub authenticated_signer: Option<AccountOwner>,
    pub bundles_hash: CryptoHash,
    pub operations_hash: CryptoHash,
    pub messages_hash: CryptoHash,
    pub oracle_responses_hash: CryptoHash,
    pub events_hash: CryptoHash,
}

/// The sections of a block: the inputs chosen by the proposer and the
/// per-transaction outcome of executing them, incoming bundles first.
#[derive(Debug)]
pub struct BlockBody {
    pub incoming_bundles: Vec<IncomingBundle>,
    pub operations: Vec<Operation>,
    pub messages: Vec<Vec<OutgoingMessage>>,
    pub oracle_responses: Vec<Vec<OracleResponse>>,
    pub events: Vec<Vec<EventRecord>>,
}

/// A block: operations to apply on a chain, acknowledged incoming
/// bundles, and the committed outcome of executing them.
#[derive(Debug)]
pub struct Block {
    pub header: BlockHeader,
    pub body: BlockBody,
}

/// The version of the block format produced here.
pub const BLOCK_VERSION: u8 = 1;

impl BlockHeader {
    /// The message identity of the `index`th outgoing message of this
    /// block.
    pub fn message_id(&self, index: u32) -> (r: MessageId)
        ensures
            r == (MessageId { chain_id: self.chain_id, height: self.height, index }),
    {
        MessageId { chain_id: self.chain_id, height: self.height, index }
    }
}

/// The outgoing messages of a block in one flat sequence, transaction by
/// transaction: the index space of [`MessageId`].
pub open spec fn flatten_msgs(s: Seq<Vec<OutgoingMessage>>) -> Seq<OutgoingMessage>
    decreases s.len(),
{
    if s.len() == 0 {
        Seq::empty()
    } else {
        flatten_msgs(s.drop_last()) + s.last()@
    }
}

proof fn lemma_flatten_take(s: Seq<Vec<OutgoingMessage>>, i: int)
    requires
        0 <= i < s.len(),
    ensures
        flatten_msgs(s.take(i + 1)) == flatten_msgs(s.take(i)) + s[i]@,
{
    let t = s.take(i + 1);
    assert(t.drop_last() =~= s.take(i));
    assert(t.last() == s[i]);
}

/// Flat indexing: message `j` of transaction `t` sits at flat index
/// `flatten_msgs(s.take(t)).len() + j`, and that is the message the flat
/// sequence holds there. Composed with the contracts of
/// `message_id_for_operation` and `message_by_id`, this is the index
/// round trip: an identifier built for an in-range (operation, message)
/// pair leads back to exactly that message.
pub proof fn lemma_flatten_index(s: Seq<Vec<OutgoingMessage>>, t: int, j: int)
    requires
        0 <= t < s.len(),
        0 <= j < s[t]@.len(),
    ensures
        flatten_msgs(s.take(t)).len() + j < flatten_msgs(s).len(),
        flatten_msgs(s)[flatten_msgs(s.take(t)).len() + j] == s[t]@[j],
    decreases s.len(),
{
    if t == s.len() - 1 {
        assert(s.take(t) =~= s.drop_last());
        assert(flatten_msgs(s) == flatten_msgs(s.drop_last()) + s.last()@);
    } else {
        let p = s.drop_last();
        assert(p.take(t) =~= s.take(t));
        assert(p[t] == s[t]);
        lemma_flatten_index(p, t, j);
        assert(flatten_msgs(s) == flatten_msgs(p) + s.last()@);
        lemma_flatten_take_mono(p, t, p.len() as int);
        assert(p.take(p.len() as int) =~= p);
    }
}

/// Earlier transactions occupy earlier flat indices: prefix lengths are
/// monotone.
pub proof fn lemma_flatten_take_mono(s: Seq<Vec<OutgoingMessage>>, a: int, b: int)
    requires
        0 <= a <= b <= s.len(),
    ensures
        flatten_msgs(s.take(a)).len() <= flatten_msgs(s.take(b)).len(),
    decreases b - a,
{
    if a < b {
        lemma_flatten_take_mono(s, a, b - 1);
        lemma_flatten_take(s, b - 1);
        assert(s.take(b - 1) =~= s.take(b).take(b - 1));
        assert(flatten_msgs(s.take(b)) == flatten_msgs(s.take(b - 1)) + s[b - 1]@);
    }
}


/// Index round trip: for an in-range (operation, message) pair of a
/// well-formed block, the flat index that `message_id_for_operation`
/// assigns is in range and is exactly where `message_by_id` finds the
/// original message; any out-of-range pair yields an empty result on
/// both ends by those functions' contracts.
pub proof fn lemma_message_index_round_trip(b: Block, operation_index: int, message_index: int)
    requires
        b.wf(),
        0 <= operation_index < b.body.operations@.len(),
        0 <= message_index < b.body.messages@[b.body.incoming_bundles@.len()
            + operation_index]@.len(),
    ensures
        flatten_msgs(
            b.body.messages@.take(b.body.incoming_bundles@.len() + operation_index),
        ).len() + message_index < flatten_msgs(b.body.messages@).len(),
        flatten_msgs(b.body.messages@)[flatten_msgs(
            b.body.messages@.take(b.body.incoming_bundles@.len() + operation_index),
        ).len() + message_index] == b.body.messages@[b.body.incoming_bundles@.len()
            + operation_index]@[message_index],
{
    lemma_flatten_index(
        b.body.messages@,
        b.body.incoming_bundles@.len() + operation_index,
        message_index,
    );
}

impl Block {
    /// One slot per transaction, incoming bundles first: the three
    /// outcome sections are aligned with the transactions.
    pub open spec fn counts_aligned(&self) -> bool {
        self.body.messages@.len() == self.body.oracle_responses@.len()
            && self.body.messages@.len() == self.body.events@.len()
            && self.body.messages@.len() == self.body.incoming_bundles@.len()
            + self.body.operations@.len()
    }

    /// Each header hash field equals the canonical hash of its body
    /// section: the commitment scheme.
    pub open spec fn commits_to_body(&self) -> bool {
        self.header.bundles_hash@ == bundles_commitment(self.body.incoming_bundles@)
            && self.header.operations_hash@ == operations_commitment(self.body.operations@)
            && self.header.messages_hash@ == messages_commitment(self.body.messages@)
            && self.header.oracle_responses_hash@ == oracle_responses_commitment(
            self.body.oracle_responses@,
        ) && self.header.events_hash@ == events_commitment(self.body.events@)
    }

    /// The block invariant: aligned sections, committed to by the header.
    pub open spec fn wf(&self) -> bool {
        self.counts_aligned() && self.commits_to_body()
    }

    /// Builds a block from a proposal's inputs and its execution
    /// outcome: the single source of truth for the commitment scheme.
    /// Semantically equal outcomes produce byte-identical headers.
    pub fn new(
        chain_id: ChainId,
        epoch: Epoch,
        height: BlockHeight,
        timestamp: Timestamp,
        previous_block_hash: Option<CryptoHash>,
        authenticated_signer: Option<AccountOwner>,
        incoming_bundles: Vec<IncomingBundle>,
        operations: Vec<Operation>,
        outcome: BlockExecutionOutcome,
    ) -> (r: Block)
        requires
            outcome.messages@.len() == incoming_bundles@.len() + operations@.len(),
            outcome.oracle_responses@.len() == outcome.messages@.len(),
            outcome.events@.len() == outcome.messages@.len(),
        ensures
            r.wf(),
            r.header.version == BLOCK_VERSION,
            r.header.chain_id == chain_id,
            r.header.epoch == epoch,
            r.header.height == height,
            r.header.timestamp == timestamp,
            r.header.state_hash == outcome.state_hash,
            r.header.previous_block_hash == previous_block_hash,
            r.header.authenticated_signer == authenticated_signer,
            r.body.incoming_bundles == incoming_bundles,
            r.body.operations == operations,
            r.body.messages == outcome.messages,
            r.body.oracle_responses == outcome.oracle_responses,
            r.body.events == outcome.events,
    {
        let bundles_hash = hash_bundles(&incoming_bundles);
        let operations_hash = hash_operations(&operations);
        let messages_hash = hash_messages(&outcome.messages);
        let oracle_responses_hash = hash_oracle_responses(&outcome.oracle_responses);
        let events_hash = hash_events(&outcome.events);
        let header = BlockHeader {
            version: BLOCK_VERSION,
            chain_id,
            epoch,
            height,
            timestamp,
            state_hash: outcome.state_hash,
            previous_block_hash,
            authenticated_signer,
            bundles_hash,
            operations_hash,
            messages_hash,
            oracle_responses_hash,
            events_hash,
        };
        let body = BlockBody {
            incoming_bundles,
            operations,
            messages: outcome.messages,
            oracle_responses: outcome.oracle_responses,
            events: outcome.events,
        };
        Block { header, body }
    }

    /// The outgoing messages, one row per transaction.
    pub fn messages(&self) -> (r: &Vec<Vec<OutgoingMessage>>)
        ensures
            *r == self.body.messages,
    {
        &self.body.messages
    }
}

/// Headers rebuilt from bodies agree wherever the bodies agree: a change
/// to one body section can move no header hash field but its own.
pub proof fn lemma_section_hash_isolation(a: Block, b: Block)
    requires
        a.wf(),
        b.wf(),
    ensures
        a.body.incoming_bundles@ == b.body.incoming_bundles@ ==> a.header.bundles_hash
            == b.header.bundles_hash,
        a.body.operations@ == b.body.operations@ ==> a.header.operations_hash
            == b.header.operations_hash,
        a.body.messages@ == b.body.messages@ ==> a.header.messages_hash == b.header.messages_hash,
        a.body.oracle_responses@ == b.body.oracle_responses@ ==> a.header.oracle_responses_hash
            == b.header.oracle_responses_hash,
        a.body.events@ == b.body.events@ ==> a.header.events_hash == b.header.events_hash,
{
    lemma_hash_view_injective(a.header.bundles_hash, b.header.bundles_hash);
    lemma_hash_view_injective(a.header.operations_hash, b.header.operations_hash);
    lemma_hash_view_injective(a.header.messages_hash, b.header.messages_hash);
    lemma_hash_view_injective(a.header.oracle_responses_hash, b.header.oracle_responses_hash);
    lemma_hash_view_injective(a.header.events_hash, b.header.events_hash);
}

/// Whether some oracle response row mentions the blob `id`.
pub open spec fn oracle_mentions(resps: Seq<Vec<OracleResponse>>, id: BlobId) -> bool {
    exists|i: int, j: int|
        0 <= i < resps.len() && 0 <= j < resps[i]@.len() && resps[i]@[j] == OracleResponse::Blob(
            id,
        )
}

/// Whether an operation publishes the blob `id`: a data blob, or one of
/// the paired contract/service bytecode blobs.
pub open spec fn op_publishes(o: Operation, id: BlobId) -> bool {
    match o {
        Operation::System(SystemOperation::PublishDataBlob { blob_hash }) => id == (BlobId {
            hash: blob_hash,
            blob_type: BlobType::Data,
        }),
        Operation::System(SystemOperation::PublishBytecode { bytecode_id }) => id == (BlobId {
            hash: bytecode_id.contract_blob_hash,
            blob_type: BlobType::ContractBytecode,
        }) || id == (BlobId {
            hash: bytecode_id.service_blob_hash,
            blob_type: BlobType::ServiceBytecode,
        }),
        _ => false,
    }
}

/// Whether some operation publishes the blob `id`.
pub open spec fn published_mentions(ops: Seq<Operation>, id: BlobId) -> bool {
    exists|i: int| 0 <= i < ops.len() && op_publishes(#[trigger] ops[i], id)
}

/// Whether `v` holds the blob identity `id`.
fn contains_blob_id(v: &Vec<BlobId>, id: BlobId) -> (r: bool)
    ensures
        r == v@.contains(id),
{
    let mut i: usize = 0;
    while i < v.len()
        invariant
            0 <= i <= v@.len(),
            forall|j: int| 0 <= j < i ==> v@[j] != id,
        decreases v@.len() - i,
    {
        if v[i].hash.equals(&id.hash) && v[i].blob_type == id.blob_type {
            proof {
                assert(v@[i as int] == id);
            }
            return true;
        }
        i = i + 1;
    }
    false
}


/// Adds `id` unless already present, keeping the list duplicate-free.
fn insert_blob_id(out: &mut Vec<BlobId>, id: BlobId)
    requires
        forall|a: int, b: int| 0 <= a < b < old(out)@.len() ==> old(out)@[a] != old(out)@[b],
    ensures
        forall|x: BlobId| final(out)@.contains(x) <==> (old(out)@.contains(x) || x == id),
        forall|a: int, b: int| 0 <= a < b < final(out)@.len() ==> final(out)@[a] != final(out)@[b],
{
    if !contains_blob_id(out, id) {
        let ghost before = out@;
        out.push(id);
        proof {
            assert forall|x: BlobId| out@.contains(x) <==> (before.contains(x) || x == id) by {
                if out@.contains(x) {
                    let k = choose|k: int| 0 <= k < out@.len() && out@[k] == x;
                    if k < before.len() {
                        assert(before[k] == x);
                    } else {
                        assert(x == id);
                    }
                }
                if before.contains(x) {
                    let k = choose|k: int| 0 <= k < before.len() && before[k] == x;
                    assert(out@[k] == x);
                }
                if x == id {
                    assert(out@[out@.len() - 1] == x);
                }
            }
            assert forall|a: int, b: int|
                0 <= a < b < out@.len() implies out@[a] != out@[b] by {
                if b == out@.len() - 1 {
                    assert(!before.contains(id));
                    assert(before[a] == out@[a]);
                }
            }
        }
    }
}

impl BlockBody {
    /// The distinct blobs that oracle responses refer to, without
    /// duplicates.
    pub fn oracle_blob_ids(&self) -> (r: Vec<BlobId>)
        ensures
            forall|id: BlobId| r@.contains(id) <==> oracle_mentions(self.oracle_responses@, id),
            forall|i: int, j: int| 0 <= i < j < r@.len() ==> r@[i] != r@[j],
    {
        let mut out: Vec<BlobId> = Vec::new();
        let rows = &self.oracle_responses;
        let mut i: usize = 0;
        while i < rows.len()
            invariant
                0 <= i <= rows@.len(),
                rows@ == self.oracle_responses@,
                forall|id: BlobId|
                    out@.contains(id) <==> oracle_mentions(rows@.take(i as int), id),
                forall|a: int, b: int| 0 <= a < b < out@.len() ==> out@[a] != out@[b],
            decreases rows@.len() - i,
        {
            let row = &rows[i];
            let mut j: usize = 0;
            while j < row.len()
                invariant
                    0 <= j <= row@.len(),
                    0 <= i < rows@.len(),
                    rows@ == self.oracle_responses@,
                    row == rows@[i as int],
                    forall|id: BlobId|
                        out@.contains(id) <==> (oracle_mentions(rows@.take(i as int), id) || (
                        exists|b: int|
                            0 <= b < j && rows@[i as int]@[b] == OracleResponse::Blob(id))),
                    forall|a: int, b: int| 0 <= a < b < out@.len() ==> out@[a] != out@[b],
                decreases row@.len() - j,
            {
                let ghost prev = out@;
                match &row[j] {
                    OracleResponse::Blob(id) => {
                        insert_blob_id(&mut out, *id);
                        proof {
                            assert(rows@[i as int]@[j as int] == OracleResponse::Blob(*id));
                            assert forall|x: BlobId|
                                out@.contains(x) <==> (oracle_mentions(rows@.take(i as int), x)
                                    || (exists|b: int|
                                    0 <= b < j + 1 && rows@[i as int]@[b] == OracleResponse::Blob(
                                        x,
                                    ))) by {
                                if out@.contains(x) {
                                    if prev.contains(x) {
                                    } else {
                                        assert(x == *id);
                                        assert(rows@[i as int]@[j as int]
                                            == OracleResponse::Blob(x));
                                    }
                                }
                                if exists|b: int|
                                    0 <= b < j + 1 && rows@[i as int]@[b] == OracleResponse::Blob(
                                        x,
                                    ) {
                                    let b = choose|b: int|
                                        0 <= b < j + 1 && rows@[i as int]@[b]
                                            == OracleResponse::Blob(x);
                                    if b < j {
                                        assert(prev.contains(x));
                                    } else {
                                        assert(x == *id);
                                    }
                                }
                            }
                        }
                    },
                    _ => {
                        proof {
                            assert(!(rows@[i as int]@[j as int] is Blob));
                            assert forall|x: BlobId|
                                out@.contains(x) <==> (oracle_mentions(rows@.take(i as int), x)
                                    || (exists|b: int|
                                    0 <= b < j + 1 && rows@[i as int]@[b] == OracleResponse::Blob(
                                        x,
                                    ))) by {
                                if exists|b: int|
                                    0 <= b < j + 1 && rows@[i as int]@[b] == OracleResponse::Blob(
                                        x,
                                    ) {
                                    let b = choose|b: int|
                                        0 <= b < j + 1 && rows@[i as int]@[b]
                                            == OracleResponse::Blob(x);
                                    assert(b != j);
                                }
                            }
                        }
                    },
                }
                j = j + 1;
            }
            proof {
                let t = rows@.take(i + 1 as int);
                assert forall|id: BlobId|
                    oracle_mentions(t, id) <==> (oracle_mentions(rows@.take(i as int), id) || (
                    exists|b: int|
                        0 <= b < row@.len() && rows@[i as int]@[b] == OracleResponse::Blob(
                            id,
                        ))) by {
                    if oracle_mentions(t, id) {
                        let (a, b) = choose|a: int, b: int|
                            0 <= a < t.len() && 0 <= b < t[a]@.len() && t[a]@[b]
                                == OracleResponse::Blob(id);
                        if a < i {
                            assert(rows@.take(i as int)[a] == t[a]);
                            assert(oracle_mentions(rows@.take(i as int), id));
                        } else {
                            assert(t[a] == rows@[i as int]);
                        }
                    }
                    if oracle_mentions(rows@.take(i as int), id) {
                        let (a, b) = choose|a: int, b: int|
                            0 <= a < i && 0 <= b < rows@.take(i as int)[a]@.len() && rows@.take(
                                i as int,
                            )[a]@[b] == OracleResponse::Blob(id);
                        assert(t[a] == rows@.take(i as int)[a]);
                        assert(t[a]@[b] == OracleResponse::Blob(id));
                        assert(oracle_mentions(t, id));
                    }
                    if exists|b: int|
                        0 <= b < row@.len() && rows@[i as int]@[b] == OracleResponse::Blob(id) {
                        let b = choose|b: int|
                            0 <= b < row@.len() && rows@[i as int]@[b] == OracleResponse::Blob(
                                id,
                            );
                        assert(t[i as int] == rows@[i as int]);
                        assert(t[i as int]@[b] == OracleResponse::Blob(id));
                        assert(oracle_mentions(t, id));
                    }
                }
            }
            i = i + 1;
        }
        proof {
            assert(rows@.take(rows@.len() as int) =~= rows@);
        }
        out
    }

    /// Whether any transaction recorded an oracle response.
    pub fn has_oracle_responses(&self) -> (r: bool)
        ensures
            r == (exists|i: int|
                0 <= i < self.oracle_responses@.len() && (#[trigger] self.oracle_responses@[i])@.len()
                    > 0),
    {
        let mut i: usize = 0;
        while i < self.oracle_responses.len()
            invariant
                0 <= i <= self.oracle_responses@.len(),
                forall|j: int|
                    0 <= j < i ==> (#[trigger] self.oracle_responses@[j])@.len() == 0,
            decreases self.oracle_responses@.len() - i,
        {
            if self.oracle_responses[i].len() > 0 {
                return true;
            }
            i = i + 1;
        }
        false
    }
}

/// The incoming posted messages of a block's bundles in one flat
/// sequence, bundle by bundle.
pub open spec fn flatten_posted(s: Seq<IncomingBundle>) -> Seq<PostedMessage>
    decreases s.len(),
{
    if s.len() == 0 {
        Seq::empty()
    } else {
        flatten_posted(s.drop_last()) + s.last().bundle.messages@
    }
}

proof fn lemma_flatten_posted_take(s: Seq<IncomingBundle>, i: int)
    requires
        0 <= i < s.len(),
    ensures
        flatten_posted(s.take(i + 1)) == flatten_posted(s.take(i)) + s[i].bundle.messages@,
{
    let t = s.take(i + 1);
    assert(t.drop_last() =~= s.take(i));
    assert(t.last() == s[i]);
}

proof fn lemma_flatten_posted_mono(s: Seq<IncomingBundle>, a: int, b: int)
    requires
        0 <= a <= b <= s.len(),
    ensures
        flatten_posted(s.take(a)).len() <= flatten_posted(s.take(b)).len(),
    decreases b - a,
{
    if a < b {
        lemma_flatten_posted_mono(s, a, b - 1);
        lemma_flatten_posted_take(s, b - 1);
    }
}


/// The number of flat message indices taken by the first `t`
/// transactions, when it fits the index space.
fn flat_prefix_len(rows: &Vec<Vec<OutgoingMessage>>, t: usize) -> (r: Option<u32>)
    requires
        t <= rows@.len(),
    ensures
        r is Some <==> flatten_msgs(rows@.take(t as int)).len() <= u32::MAX,
        r matches Some(v) ==> v == flatten_msgs(rows@.take(t as int)).len(),
{
    let mut first: u32 = 0;
    let mut i: usize = 0;
    proof {
        assert(rows@.take(0) =~= Seq::<Vec<OutgoingMessage>>::empty());
    }
    while i < t
        invariant
            0 <= i <= t <= rows@.len(),
            first == flatten_msgs(rows@.take(i as int)).len(),
        decreases t - i,
    {
        let len_i: usize = rows[i].len();
        proof {
            lemma_flatten_take(rows@, i as int);
        }
        if len_i as u64 > 0xffff_ffff - first as u64 {
            proof {
                lemma_flatten_take_mono(rows@, i + 1 as int, t as int);
            }
            return None;
        }
        first = first + len_i as u32;
        i = i + 1;
    }
    Some(first)
}

impl Block {
    /// The flat message identifier of the `message_index`th message
    /// created by the `operation_index`th operation; empty when there is
    /// no such operation or message, or an index would overflow its
    /// space.
    pub fn message_id_for_operation(&self, operation_index: usize, message_index: u32) -> (r:
        Option<MessageId>)
        requires
            self.wf(),
        ensures
            r is Some <==> (operation_index < self.body.operations@.len() && ({
                let t = self.body.incoming_bundles@.len() + operation_index;
                self.body.messages@[t]@.len() <= u32::MAX && message_index
                    < self.body.messages@[t]@.len() && flatten_msgs(
                    self.body.messages@.take(t),
                ).len() + message_index <= u32::MAX
            })),
            r matches Some(id) ==> id == (MessageId {
                chain_id: self.header.chain_id,
                height: self.header.height,
                index: (flatten_msgs(
                    self.body.messages@.take(
                        self.body.incoming_bundles@.len() + operation_index,
                    ),
                ).len() + message_index) as u32,
            }),
    {
        let rows = &self.body.messages;
        if operation_index >= self.body.operations.len() {
            return None;
        }
        let n_rows: usize = rows.len();
        proof {
            assert(self.body.incoming_bundles@.len() + operation_index < n_rows);
        }
        let t: usize = self.body.incoming_bundles.len() + operation_index;
        let row_len: usize = rows[t].len();
        if row_len as u64 > 0xffff_ffff {
            return None;
        }
        if message_index as u64 >= row_len as u64 {
            return None;
        }
        match flat_prefix_len(rows, t) {
            None => {
                proof {
                    assert(flatten_msgs(rows@.take(t as int)).len() + message_index > u32::MAX);
                }
                None
            },
            Some(first) => {
                if message_index > 0xffff_ffff - first {
                    None
                } else {
                    Some(self.header.message_id(first + message_index))
                }
            },
        }
    }

    /// The outgoing message with the given identifier; empty when the
    /// identifier names another chain or height, or its index is out of
    /// range.
    pub fn message_by_id(&self, message_id: &MessageId) -> (r: Option<&OutgoingMessage>)
        ensures
            r is Some <==> (message_id.chain_id == self.header.chain_id && message_id.height
                == self.header.height && message_id.index < flatten_msgs(
                self.body.messages@,
            ).len()),
            r matches Some(m) ==> *m == flatten_msgs(self.body.messages@)[message_id.index as int],
    {
        if !message_id.chain_id.0.equals(&self.header.chain_id.0) {
            return None;
        }
        if message_id.height.0 != self.header.height.0 {
            return None;
        }
        let rows = &self.body.messages;
        let mut idx: usize = message_id.index as usize;
        let mut t: usize = 0;
        proof {
            assert(rows@.take(0) =~= Seq::<Vec<OutgoingMessage>>::empty());
        }
        while t < rows.len()
            invariant
                0 <= t <= rows@.len(),
                rows@ == self.body.messages@,
                message_id.chain_id == self.header.chain_id,
                message_id.height == self.header.height,
                idx == message_id.index - flatten_msgs(rows@.take(t as int)).len(),
                flatten_msgs(rows@.take(t as int)).len() <= message_id.index,
            decreases rows@.len() - t,
        {
            let row = &rows[t];
            proof {
                lemma_flatten_take(rows@, t as int);
            }
            if idx < row.len() {
                proof {
                    lemma_flatten_index(rows@, t as int, idx as int);
                }
                return Some(&row[idx]);
            }
            idx = idx - row.len();
            t = t + 1;
        }
        proof {
            assert(rows@.take(rows@.len() as int) =~= rows@);
        }
        None
    }

    /// All the distinct blobs the block publishes through its
    /// operations, without duplicates.
    pub fn published_blob_ids(&self) -> (r: Vec<BlobId>)
        ensures
            forall|id: BlobId| r@.contains(id) <==> published_mentions(self.body.operations@, id),
            forall|i: int, j: int| 0 <= i < j < r@.len() ==> r@[i] != r@[j],
    {
        let mut out: Vec<BlobId> = Vec::new();
        let ops = &self.body.operations;
        let mut i: usize = 0;
        while i < ops.len()
            invariant
                0 <= i <= ops@.len(),
                ops@ == self.body.operations@,
                forall|id: BlobId|
                    out@.contains(id) <==> published_mentions(ops@.take(i as int), id),
                forall|a: int, b: int| 0 <= a < b < out@.len() ==> out@[a] != out@[b],
            decreases ops@.len() - i,
        {
            let ghost prev = out@;
            match &ops[i] {
                Operation::System(SystemOperation::PublishDataBlob { blob_hash }) => {
                    let id = BlobId { hash: *blob_hash, blob_type: BlobType::Data };
                    insert_blob_id(&mut out, id);
                },
                Operation::System(SystemOperation::PublishBytecode { bytecode_id }) => {
                    let c = BlobId {
                        hash: bytecode_id.contract_blob_hash,
                        blob_type: BlobType::ContractBytecode,
                    };
                    insert_blob_id(&mut out, c);
                    let sv = BlobId {
                        hash: bytecode_id.service_blob_hash,
                        blob_type: BlobType::ServiceBytecode,
                    };
                    insert_blob_id(&mut out, sv);
                },
                _ => {},
            }
            proof {
                let t = ops@.take(i + 1 as int);
                assert(t[i as int] == ops@[i as int]);
                assert forall|id: BlobId|
                    out@.contains(id) <==> published_mentions(t, id) by {
                    assert(out@.contains(id) <==> (prev.contains(id) || op_publishes(
                        ops@[i as int],
                        id,
                    )));
                    if published_mentions(t, id) {
                        let a = choose|a: int|
                            0 <= a < t.len() && op_publishes(#[trigger] t[a], id);
                        if a < i {
                            assert(ops@.take(i as int)[a] == t[a]);
                            assert(published_mentions(ops@.take(i as int), id));
                        } else {
                            assert(t[a] == ops@[i as int]);
                        }
                    }
                    if prev.contains(id) {
                        let a = choose|a: int|
                            0 <= a < i && op_publishes(#[trigger] ops@.take(i as int)[a], id);
                        assert(t[a] == ops@.take(i as int)[a]);
                        assert(published_mentions(t, id));
                    }
                    if op_publishes(ops@[i as int], id) {
                        assert(op_publishes(t[i as int], id));
                        assert(published_mentions(t, id));
                    }
                }
            }
            i = i + 1;
        }
        proof {
            assert(ops@.take(ops@.len() as int) =~= ops@);
        }
        out
    }

    /// The block's external-data dependency set: blobs referenced by
    /// oracle responses or published by operations, without duplicates.
    pub fn required_blob_ids(&self) -> (r: Vec<BlobId>)
        ensures
            forall|id: BlobId|
                r@.contains(id) <==> (oracle_mentions(self.body.oracle_responses@, id)
                    || published_mentions(self.body.operations@, id)),
            forall|i: int, j: int| 0 <= i < j < r@.len() ==> r@[i] != r@[j],
    {
        let mut out = self.body.oracle_blob_ids();
        let published = self.published_blob_ids();
        let mut i: usize = 0;
        while i < published.len()
            invariant
                0 <= i <= published@.len(),
                forall|id: BlobId|
                    out@.contains(id) <==> (oracle_mentions(self.body.oracle_responses@, id) || (
                    exists|a: int| 0 <= a < i && published@[a] == id)),
                forall|a: int, b: int| 0 <= a < b < out@.len() ==> out@[a] != out@[b],
                forall|id: BlobId|
                    published@.contains(id) <==> published_mentions(self.body.operations@, id),
            decreases published@.len() - i,
        {
            let ghost prev = out@;
            let id = published[i];
            insert_blob_id(&mut out, id);
            proof {
                assert(published@[i as int] == id);
                assert forall|x: BlobId|
                    out@.contains(x) <==> (oracle_mentions(self.body.oracle_responses@, x) || (
                    exists|a: int| 0 <= a < i + 1 && published@[a] == x)) by {
                    assert(out@.contains(x) <==> (prev.contains(x) || x == id));
                    if exists|a: int| 0 <= a < i + 1 && published@[a] == x {
                        let a = choose|a: int| 0 <= a < i + 1 && published@[a] == x;
                        if a < i {
                            assert(prev.contains(x));
                        } else {
                            assert(x == id);
                        }
                    }
                    if x == id {
                        assert(published@[i as int] == x);
                    }
                }
            }
            i = i + 1;
        }
        proof {
            assert forall|id: BlobId|
                out@.contains(id) <==> (oracle_mentions(self.body.oracle_responses@, id)
                    || published_mentions(self.body.operations@, id)) by {
                if published_mentions(self.body.operations@, id) {
                    assert(published@.contains(id));
                    let a = choose|a: int| 0 <= a < published@.len() && published@[a] == id;
                    assert(exists|a: int| 0 <= a < published@.len() && published@[a] == id);
                }
                if exists|a: int| 0 <= a < published@.len() && published@[a] == id {
                    assert(published@.contains(id));
                }
            }
        }
        out
    }

    /// Whether validating the block needs this blob.
    pub fn requires_blob(&self, blob_id: &BlobId) -> (r: bool)
        ensures
            r == (oracle_mentions(self.body.oracle_responses@, *blob_id) || published_mentions(
                self.body.operations@,
                *blob_id,
            )),
    {
        let ids = self.required_blob_ids();
        contains_blob_id(&ids, *blob_id)
    }

    /// Whether the block holds no operations and only rejected incoming
    /// bundles: the one shape an otherwise-closed chain still admits.
    pub fn has_only_rejected_messages(&self) -> (r: bool)
        ensures
            r == (self.body.operations@.len() == 0 && (forall|i: int|
                0 <= i < self.body.incoming_bundles@.len()
                    ==> (#[trigger] self.body.incoming_bundles@[i]).action
                    == MessageAction::Reject)),
    {
        if self.body.operations.len() > 0 {
            return false;
        }
        let bundles = &self.body.incoming_bundles;
        let mut i: usize = 0;
        while i < bundles.len()
            invariant
                0 <= i <= bundles@.len(),
                bundles@ == self.body.incoming_bundles@,
                forall|j: int|
                    0 <= j < i ==> (#[trigger] bundles@[j]).action == MessageAction::Reject,
            decreases bundles@.len() - i,
        {
            match bundles[i].action {
                MessageAction::Reject => {},
                MessageAction::Accept => {
                    return false;
                },
            }
            i = i + 1;
        }
        true
    }

    /// All incoming posted messages, bundle by bundle.
    pub fn incoming_messages(&self) -> (r: Vec<&PostedMessage>)
        ensures
            r@.len() == flatten_posted(self.body.incoming_bundles@).len(),
            forall|k: int|
                0 <= k < r@.len() ==> *(#[trigger] r@[k]) == flatten_posted(
                    self.body.incoming_bundles@,
                )[k],
    {
        let bundles = &self.body.incoming_bundles;
        let mut out: Vec<&PostedMessage> = Vec::new();
        let mut i: usize = 0;
        proof {
            assert(bundles@.take(0) =~= Seq::<IncomingBundle>::empty());
        }
        while i < bundles.len()
            invariant
                0 <= i <= bundles@.len(),
                bundles@ == self.body.incoming_bundles@,
                out@.len() == flatten_posted(bundles@.take(i as int)).len(),
                forall|k: int|
                    0 <= k < out@.len() ==> *(#[trigger] out@[k]) == flatten_posted(
                        bundles@.take(i as int),
                    )[k],
            decreases bundles@.len() - i,
        {
            let msgs = &bundles[i].bundle.messages;
            let mut j: usize = 0;
            proof {
                lemma_flatten_posted_take(bundles@, i as int);
            }
            while j < msgs.len()
                invariant
                    0 <= j <= msgs@.len(),
                    0 <= i < bundles@.len(),
                    bundles@ == self.body.incoming_bundles@,
                    msgs == bundles@[i as int].bundle.messages,
                    flatten_posted(bundles@.take(i + 1 as int)) == flatten_posted(
                        bundles@.take(i as int),
                    ) + msgs@,
                    out@.len() == flatten_posted(bundles@.take(i as int)).len() + j,
                    forall|k: int|
                        0 <= k < out@.len() ==> *(#[trigger] out@[k]) == flatten_posted(
                            bundles@.take(i + 1 as int),
                        )[k],
                decreases msgs@.len() - j,
            {
                out.push(&msgs[j]);
                j = j + 1;
            }
            i = i + 1;
        }
        proof {
            assert(bundles@.take(bundles@.len() as int) =~= bundles@);
        }
        out
    }

    /// The number of incoming posted messages.
    pub fn message_count(&self) -> (r: usize)
        requires
            flatten_posted(self.body.incoming_bundles@).len() <= usize::MAX,
        ensures
            r == flatten_posted(self.body.incoming_bundles@).len(),
    {
        let bundles = &self.body.incoming_bundles;
        let mut count: usize = 0;
        let mut i: usize = 0;
        proof {
            assert(bundles@.take(0) =~= Seq::<IncomingBundle>::empty());
        }
        while i < bundles.len()
            invariant
                0 <= i <= bundles@.len(),
                bundles@ == self.body.incoming_bundles@,
                count == flatten_posted(bundles@.take(i as int)).len(),
                flatten_posted(bundles@).len() <= usize::MAX,
            decreases bundles@.len() - i,
        {
            proof {
                lemma_flatten_posted_take(bundles@, i as int);
                lemma_flatten_posted_mono(bundles@, i + 1 as int, bundles@.len() as int);
                assert(bundles@.take(bundles@.len() as int) =~= bundles@);
            }
            count = count + bundles[i].bundle.messages.len();
            i = i + 1;
        }
        proof {
            assert(bundles@.take(bundles@.len() as int) =~= bundles@);
        }
        count
    }

    /// All transactions by index: received bundles first, then executed
    /// operations.
    pub fn transactions<'a>(&'a self) -> (r: Vec<(u32, Transaction<'a>)>)
        requires
            self.body.incoming_bundles@.len() + self.body.operations@.len() <= u32::MAX,
        ensures
            r@.len() == self.body.incoming_bundles@.len() + self.body.operations@.len(),
            forall|k: int|
                0 <= k < self.body.incoming_bundles@.len() ==> (#[trigger] r@[k]).0 == k && (
                r@[k].1 matches Transaction::ReceiveMessages(b) && *b
                    == self.body.incoming_bundles@[k]),
            forall|k: int|
                self.body.incoming_bundles@.len() <= k < r@.len() ==> (#[trigger] r@[k]).0 == k
                    && (r@[k].1 matches Transaction::ExecuteOperation(o) && *o
                    == self.body.operations@[k - self.body.incoming_bundles@.len()]),
    {
        let mut out: Vec<(u32, Transaction<'a>)> = Vec::new();
        let nb = self.body.incoming_bundles.len();
        let mut i: usize = 0;
        while i < nb
            invariant
                0 <= i <= nb,
                nb == self.body.incoming_bundles@.len(),
                nb + self.body.operations@.len() <= u32::MAX,
                out@.len() == i,
                forall|k: int|
                    0 <= k < i ==> (#[trigger] out@[k]).0 == k && (
                    out@[k].1 matches Transaction::ReceiveMessages(b) && *b
                        == self.body.incoming_bundles@[k]),
            decreases nb - i,
        {
            out.push((i as u32, Transaction::ReceiveMessages(&self.body.incoming_bundles[i])));
            i = i + 1;
        }
        let no = self.body.operations.len();
        let mut j: usize = 0;
        while j < no
            invariant
                0 <= j <= no,
                nb == self.body.incoming_bundles@.len(),
                no == self.body.operations@.len(),
                nb + no <= u32::MAX,
                out@.len() == nb + j,
                forall|k: int|
                    0 <= k < nb ==> (#[trigger] out@[k]).0 == k && (
                    out@[k].1 matches Transaction::ReceiveMessages(b) && *b
                        == self.body.incoming_bundles@[k]),
                forall|k: int|
                    nb <= k < nb + j ==> (#[trigger] out@[k]).0 == k && (
                    out@[k].1 matches Transaction::ExecuteOperation(o) && *o
                        == self.body.operations@[k - nb]),
            decreases no - j,
        {
            out.push(((nb + j) as u32, Transaction::ExecuteOperation(&self.body.operations[j])));
            j = j + 1;
        }
        out
    }

    /// The first incoming bundle, its first message and the new-chain
    /// configuration, when the block starts by accepting an open-chain
    /// message.
    pub fn starts_with_open_chain_message(&self) -> (r: Option<
        (&IncomingBundle, &PostedMessage, &OpenChainConfig),
    >)
        ensures
            r is Some <==> (self.body.incoming_bundles@.len() > 0
                && self.body.incoming_bundles@[0].action == MessageAction::Accept
                && self.body.incoming_bundles@[0].bundle.messages@.len() > 0
                && self.body.incoming_bundles@[0].bundle.messages@[0].message matches Message::System(
                SystemMessage::OpenChain(_),
            )),
            r matches Some((b, m, c)) ==> *b == self.body.incoming_bundles@[0] && *m
                == self.body.incoming_bundles@[0].bundle.messages@[0] && m.message
                == Message::System(SystemMessage::OpenChain(*c)),
    {
        if self.body.incoming_bundles.len() == 0 {
            return None;
        }
        let in_bundle = &self.body.incoming_bundles[0];
        match in_bundle.action {
            MessageAction::Reject => {
                return None;
            },
            MessageAction::Accept => {},
        }
        if in_bundle.bundle.messages.len() == 0 {
            return None;
        }
        let posted_message = &in_bundle.bundle.messages[0];
        match posted_message.message.matches_open_chain() {
            Some(config) => Some((in_bundle, posted_message, config)),
            None => None,
        }
    }
}

/// The canonical encoding of a block header: metadata, then the five
/// section hashes.
pub open spec fn enc_header(h: BlockHeader) -> Seq<u8> {
    seq![h.version] + h.chain_id.0@ + enc_u32(h.epoch.0) + enc_u64(h.height.0) + enc_u64(
        h.timestamp.0,
    ) + h.state_hash@ + enc_opt_hash(h.previous_block_hash) + enc_opt_owner(
        h.authenticated_signer,
    ) + h.bundles_hash@ + h.operations_hash@ + h.messages_hash@ + h.oracle_responses_hash@
        + h.events_hash@
}

pub fn write_header(out: &mut Vec<u8>, h: &BlockHeader)
    ensures
        final(out)@ == old(out)@ + enc_header(*h),
{
    out.push(h.version);
    h.chain_id.0.write_into(out);
    write_u32(out, h.epoch.0);
    write_u64(out, h.height.0);
    write_u64(out, h.timestamp.0);
    h.state_hash.write_into(out);
    write_opt_hash(out, &h.previous_block_hash);
    write_opt_owner(out, &h.authenticated_signer);
    h.bundles_hash.write_into(out);
    h.operations_hash.write_into(out);
    h.messages_hash.write_into(out);
    h.oracle_responses_hash.write_into(out);
    h.events_hash.write_into(out);
    proof {
        assert(out@ =~= old(out)@ + enc_header(*h));
    }
}

/// The canonical encoding of a whole block: the header, then the five
/// sections.
pub open spec fn enc_block(b: Block) -> Seq<u8> {
    enc_header(b.header) + enc_bundle_list(b.body.incoming_bundles@) + enc_operation_list(
        b.body.operations@,
    ) + enc_out_msg_row_list(b.body.messages@) + enc_oracle_row_list(b.body.oracle_responses@)
        + enc_event_row_list(b.body.events@)
}

pub fn write_block(out: &mut Vec<u8>, b: &Block)
    ensures
        final(out)@ == old(out)@ + enc_block(*b),
{
    write_header(out, &b.header);
    write_bundle_list(out, &b.body.incoming_bundles);
    write_operation_list(out, &b.body.operations);
    write_out_msg_row_list(out, &b.body.messages);
    write_oracle_row_list(out, &b.body.oracle_responses);
    write_event_row_list(out, &b.body.events);
    proof {
        assert(out@ =~= old(out)@ + enc_block(*b));
    }
}

impl Block {
    /// Checks the canonical serialized size of the proposal: the block
    /// and its referenced blobs together must fit the limit.
    pub fn check_proposal_size(&self, maximum_block_proposal_size: u64, blobs: &Vec<Blob>) -> (r:
        Result<(), ChainError>)
        ensures
            r is Ok <==> enc_block(*self).len() + enc_blob_list(blobs@).len()
                <= maximum_block_proposal_size,
            r matches Err(e) ==> e is BlockProposalTooLarge,
    {
        let mut buf: Vec<u8> = Vec::new();
        write_block(&mut buf, self);
        write_blob_list(&mut buf, blobs);
        let size: usize = buf.len();
        if size as u64 <= maximum_block_proposal_size {
            Ok(())
        } else {
            Err(ChainError::BlockProposalTooLarge)
        }
    }
}

impl Signable for Block {
    open spec fn type_tag() -> Seq<u8> {
        // "Block"
        seq![66u8, 108u8, 111u8, 99u8, 107u8]
    }

    open spec fn payload(&self) -> Seq<u8> {
        enc_block(*self)
    }

    fn write_tag(out: &mut Vec<u8>) {
        out.push(66);
        out.push(108);
        out.push(111);
        out.push(99);
        out.push(107);
        proof {
            assert(out@ =~= old(out)@ + Self::type_tag());
        }
    }

    fn write_payload(&self, out: &mut Vec<u8>) {
        write_block(out, self);
    }

    fn declared_name() -> String {
        "Block".to_owned()
    }
}

/// A block that has been validated by a pre-vote: what validators sign
/// in the first round of consensus.
#[derive(Debug)]
pub struct ValidatedBlock {
    executed_block: Hashed<Block>,
}

impl ValidatedBlock {
    /// The content-hashed block inside.
    pub closed spec fn spec_inner(&self) -> Hashed<Block> {
        self.executed_block
    }

    /// Wraps a freshly built block, computing its canonical hash.
    pub fn new(block: Block) -> (r: ValidatedBlock)
        ensures
            r.spec_inner().spec_value() == block,
            r.spec_inner().is_valid(),
    {
        ValidatedBlock { executed_block: Hashed::new(block) }
    }

    /// Wraps an already content-hashed block.
    pub fn from_hashed(block: Hashed<Block>) -> (r: ValidatedBlock)
        ensures
            r.spec_inner() == block,
    {
        ValidatedBlock { executed_block: block }
    }

    /// The content-hashed block.
    pub fn inner(&self) -> (r: &Hashed<Block>)
        ensures
            *r == self.spec_inner(),
    {
        &self.executed_block
    }

    /// The block itself.
    pub fn executed_block(&self) -> (r: &Block)
        ensures
            *r == self.spec_inner().spec_value(),
    {
        self.executed_block.inner()
    }

    /// Consumes the wrapper, returning the block.
    pub fn into_inner(self) -> (r: Block)
        ensures
            r == self.spec_inner().spec_value(),
    {
        self.executed_block.into_inner()
    }

    /// The label used in logs.
    pub fn to_log_str(&self) -> (r: &'static str)
        ensures
            r@ == "validated_block"@,
    {
        "validated_block"
    }

    /// The chain the block belongs to.
    pub fn chain_id(&self) -> (r: ChainId)
        ensures
            r == self.spec_inner().spec_value().header.chain_id,
    {
        self.executed_block.inner().header.chain_id
    }

    /// The block's height.
    pub fn height(&self) -> (r: BlockHeight)
        ensures
            r == self.spec_inner().spec_value().header.height,
    {
        self.executed_block.inner().header.height
    }

    /// The block's epoch.
    pub fn epoch(&self) -> (r: Epoch)
        ensures
            r == self.spec_inner().spec_value().header.epoch,
    {
        self.executed_block.inner().header.epoch
    }
}

impl Signable for ValidatedBlock {
    open spec fn type_tag() -> Seq<u8> {
        // "ValidatedBlock"
        seq![86u8, 97u8, 108u8, 105u8, 100u8, 97u8, 116u8, 101u8, 100u8, 66u8, 108u8, 111u8, 99u8, 107u8]
    }

    open spec fn payload(&self) -> Seq<u8> {
        enc_block(self.spec_inner().spec_value()) + self.spec_inner().spec_hash()@
    }

    fn write_tag(out: &mut Vec<u8>) {
        out.push(86);
        out.push(97);
        out.push(108);
        out.push(105);
        out.push(100);
        out.push(97);
        out.push(116);
        out.push(101);
        out.push(100);
        out.push(66);
        out.push(108);
        out.push(111);
        out.push(99);
        out.push(107);
        proof {
            assert(out@ =~= old(out)@ + Self::type_tag());
        }
    }

    fn write_payload(&self, out: &mut Vec<u8>) {
        write_block(out, self.executed_block.inner());
        self.executed_block.hash().write_into(out);
        proof {
            assert(out@ =~= old(out)@ + self.payload());
        }
    }

    fn declared_name() -> String {
        "ValidatedBlock".to_owned()
    }
}

/// A block that reached a quorum of validated votes: what validators
/// sign for final commitment. It hashes under its own type tag, so a
/// signature over a validated block can never stand for a confirmed one.
#[derive(Debug)]
pub struct ConfirmedBlock {
    executed_block: Hashed<Block>,
}

impl ConfirmedBlock {
    /// The content-hashed block inside.
    pub closed spec fn spec_inner(&self) -> Hashed<Block> {
        self.executed_block
    }

    /// Wraps a freshly built block, computing its canonical hash.
    pub fn new(executed_block: Block) -> (r: ConfirmedBlock)
        ensures
            r.spec_inner().spec_value() == executed_block,
            r.spec_inner().is_valid(),
    {
        ConfirmedBlock { executed_block: Hashed::new(executed_block) }
    }

    /// Wraps an already content-hashed block.
    pub fn from_hashed(block: Hashed<Block>) -> (r: ConfirmedBlock)
        ensures
            r.spec_inner() == block,
    {
        ConfirmedBlock { executed_block: block }
    }

    /// The content-hashed block.
    pub fn inner(&self) -> (r: &Hashed<Block>)
        ensures
            *r == self.spec_inner(),
    {
        &self.executed_block
    }

    /// The block itself.
    pub fn executed_block(&self) -> (r: &Block)
        ensures
            *r == self.spec_inner().spec_value(),
    {
        self.executed_block.inner()
    }

    /// Consumes the wrapper, returning the block.
    pub fn into_inner(self) -> (r: Block)
        ensures
            r == self.spec_inner().spec_value(),
    {
        self.executed_block.into_inner()
    }

    /// The chain the block belongs to.
    pub fn chain_id(&self) -> (r: ChainId)
        ensures
            r == self.spec_inner().spec_value().header.chain_id,
    {
        self.executed_block.inner().header.chain_id
    }

    /// The block's height.
    pub fn height(&self) -> (r: BlockHeight)
        ensures
            r == self.spec_inner().spec_value().header.height,
    {
        self.executed_block.inner().header.height
    }

    /// The label used in logs.
    pub fn to_log_str(&self) -> (r: &'static str)
        ensures
            r@ == "confirmed_block"@,
    {
        "confirmed_block"
    }

    /// Pairs this value with a caller-asserted hash without
    /// recomputation. Safe only when the hash's provenance was already
    /// verified upstream, such as content retrieved by hash from a
    /// trusted store.
    pub fn with_hash_unchecked(self, hash: CryptoHash) -> (r: Hashed<ConfirmedBlock>)
        ensures
            r.spec_value() == self,
            r.spec_hash() == hash,
    {
        Hashed::unchecked_new(self, hash)
    }

    /// Pairs this value with its computed canonical hash.
    fn with_hash(self) -> (r: Hashed<ConfirmedBlock>)
        ensures
            r.spec_value() == self,
            r.spec_hash()@ == hash_of(self),
            r.is_valid(),
    {
        let hash = CryptoHash::new(&self);
        Hashed::unchecked_new(self, hash)
    }

    /// Pairs this value with a claimed hash after recomputing it:
    /// succeeds exactly when the claim matches, and otherwise reports
    /// both hashes. Mandatory whenever the value arrives from an
    /// untrusted source.
    pub fn with_hash_checked(self, hash: CryptoHash) -> (r: Result<
        Hashed<ConfirmedBlock>,
        ChainError,
    >)
        ensures
            r is Ok <==> hash@ == hash_of(self),
            r matches Ok(h) ==> h.spec_value() == self && h.spec_hash()@ == hash_of(self)
                && h.is_valid(),
            r matches Err(e) ==> (e matches ChainError::CertificateValueHashMismatch {
                expected,
                actual,
            } && expected == hash && actual@ == hash_of(self)),
    {
        let hashed_certificate_value = self.with_hash();
        let actual = hashed_certificate_value.hash();
        if actual.equals(&hash) {
            Ok(hashed_certificate_value)
        } else {
            Err(ChainError::CertificateValueHashMismatch { expected: hash, actual })
        }
    }
}

impl Signable for ConfirmedBlock {
    open spec fn type_tag() -> Seq<u8> {
        // "ConfirmedBlock"
        seq![67u8, 111u8, 110u8, 102u8, 105u8, 114u8, 109u8, 101u8, 100u8, 66u8, 108u8, 111u8, 99u8, 107u8]
    }

    open spec fn payload(&self) -> Seq<u8> {
        enc_block(self.spec_inner().spec_value()) + self.spec_inner().spec_hash()@
    }

    fn write_tag(out: &mut Vec<u8>) {
        out.push(67);
        out.push(111);
        out.push(110);
        out.push(102);
        out.push(105);
        out.push(114);
        out.push(109);
        out.push(101);
        out.push(100);
        out.push(66);
        out.push(108);
        out.push(111);
        out.push(99);
        out.push(107);
        proof {
            assert(out@ =~= old(out)@ + Self::type_tag());
        }
    }

    fn write_payload(&self, out: &mut Vec<u8>) {
        write_block(out, self.executed_block.inner());
        self.executed_block.hash().write_into(out);
        proof {
            assert(out@ =~= old(out)@ + self.payload());
        }
    }

    fn declared_name() -> String {
        "ConfirmedBlock".to_owned()
    }
}

/// The value validators sign when a round times out before any block
/// reaches quorum: only the chain, height and epoch.
#[derive(Debug, Clone, Copy, PartialEq, Eq, Structural)]
pub struct Timeout {
    pub chain_id: ChainId,
    pub height: BlockHeight,
    pub epoch: Epoch,
}

impl Timeout {
    /// A timeout value for the given round.
    pub fn new(chain_id: ChainId, height: BlockHeight, epoch: Epoch) -> (r: Timeout)
        ensures
            r == (Timeout { chain_id, height, epoch }),
    {
        Timeout { chain_id, height, epoch }
    }

    /// The label used in logs.
    pub fn to_log_str(&self) -> (r: &'static str)
        ensures
            r@ == "timeout"@,
    {
        "timeout"
    }

    /// The chain the round belongs to.
    pub fn chain_id(&self) -> (r: ChainId)
        ensures
            r == self.chain_id,
    {
        self.chain_id
    }

    /// The round's height.
    pub fn height(&self) -> (r: BlockHeight)
        ensures
            r == self.height,
    {
        self.height
    }

    /// The round's epoch.
    pub fn epoch(&self) -> (r: Epoch)
        ensures
            r == self.epoch,
    {
        self.epoch
    }
}

impl Signable for Timeout {
    open spec fn type_tag() -> Seq<u8> {
        // "Timeout"
        seq![84u8, 105u8, 109u8, 101u8, 111u8, 117u8, 116u8]
    }

    open spec fn payload(&self) -> Seq<u8> {
        self.chain_id.0@ + enc_u64(self.height.0) + enc_u32(self.epoch.0)
    }

    fn write_tag(out: &mut Vec<u8>) {
        out.push(84);
        out.push(105);
        out.push(109);
        out.push(101);
        out.push(111);
        out.push(117);
        out.push(116);
        proof {
            assert(out@ =~= old(out)@ + Self::type_tag());
        }
    }

    fn write_payload(&self, out: &mut Vec<u8>) {
        self.chain_id.0.write_into(out);
        write_u64(out, self.height.0);
        write_u32(out, self.epoch.0);
        proof {
            assert(out@ =~= old(out)@ + self.payload());
        }
    }

    fn declared_name() -> String {
        "Timeout".to_owned()
    }
}

/// Domain separation of certificate values: a validated and a confirmed
/// block feed different bytes to the hash, even when they wrap the very
/// same block, so neither's hash or signature can stand for the other.
pub proof fn lemma_certificate_domain_separation(v: ValidatedBlock, c: ConfirmedBlock)
    ensures
        digest_input(v) != digest_input(c),
{
    let tv = <ValidatedBlock as Signable>::type_tag();
    let tc = <ConfirmedBlock as Signable>::type_tag();
    assert(tv[0] != tc[0]);
    lemma_domain_separation::<ValidatedBlock, ConfirmedBlock>(v, c);
}

/// Timeouts hash under their own tag too: no timeout digest input
/// coincides with a validated or confirmed block's.
pub proof fn lemma_timeout_domain_separation(t: Timeout, v: ValidatedBlock, c: ConfirmedBlock)
    ensures
        digest_input(t) != digest_input(v),
        digest_input(t) != digest_input(c),
{
    assert(<Timeout as Signable>::type_tag().len() != <ValidatedBlock as Signable>::type_tag().len());
    assert(<Timeout as Signable>::type_tag().len() != <ConfirmedBlock as Signable>::type_tag().len());
    lemma_domain_separation::<Timeout, ValidatedBlock>(t, v);
    lemma_domain_separation::<Timeout, ConfirmedBlock>(t, c);
}

impl From<Block> for BlockExecutionOutcome {
    /// Projects a block back to the outcome it committed to.
    fn from(block: Block) -> (r: BlockExecutionOutcome) {
        BlockExecutionOutcome {
            state_hash: block.header.state_hash,
            messages: block.body.messages,
            oracle_responses: block.body.oracle_responses,
            events: block.body.events,
        }
    }
}

impl vstd::std_specs::convert::FromSpecImpl<Block> for BlockExecutionOutcome {
    open spec fn obeys_from_spec() -> bool {
        true
    }

    open spec fn from_spec(block: Block) -> Self {
        BlockExecutionOutcome {
            state_hash: block.header.state_hash,
            messages: block.body.messages,
            oracle_responses: block.body.oracle_responses,
            events: block.body.events,
        }
    }
}

/// Whether any message of the row is addressed, via `medium`, to
/// `recipient`.
pub open spec fn row_has_match(
    row: Seq<OutgoingMessage>,
    medium: Medium,
    recipient: ChainId,
) -> bool {
    exists|j: int|
        0 <= j < row.len() && spec_has_destination(
            (#[trigger] row[j]).destination,
            medium,
            recipient,
        )
}

/// Whether `posted` is exactly the matching messages of `row`, in their
/// original relative order, each posted at its flat index (`base` plus
/// its position in the row).
pub open spec fn posted_row_matches(
    row: Seq<OutgoingMessage>,
    base: int,
    medium: Medium,
    recipient: ChainId,
    posted: Seq<PostedMessage>,
) -> bool
    decreases row.len(),
{
    if row.len() == 0 {
        posted.len() == 0
    } else if spec_has_destination(row.last().destination, medium, recipient) {
        posted.len() > 0 && posted_of(row.last(), (base + row.len() - 1) as u32, posted.last())
            && posted_row_matches(row.drop_last(), base, medium, recipient, posted.drop_last())
    } else {
        posted_row_matches(row.drop_last(), base, medium, recipient, posted)
    }
}

/// A row's posted selection is empty exactly when nothing in the row
/// matches.
proof fn lemma_posted_row_empty(
    row: Seq<OutgoingMessage>,
    base: int,
    medium: Medium,
    recipient: ChainId,
    posted: Seq<PostedMessage>,
)
    requires
        posted_row_matches(row, base, medium, recipient, posted),
    ensures
        (posted.len() > 0) <==> row_has_match(row, medium, recipient),
    decreases row.len(),
{
    if row.len() == 0 {
    } else if spec_has_destination(row.last().destination, medium, recipient) {
        assert(row_has_match(row, medium, recipient)) by {
            assert(spec_has_destination(row[row.len() - 1].destination, medium, recipient));
        }
    } else {
        lemma_posted_row_empty(row.drop_last(), base, medium, recipient, posted);
        assert(row_has_match(row.drop_last(), medium, recipient) <==> row_has_match(
            row,
            medium,
            recipient,
        )) by {
            if row_has_match(row, medium, recipient) {
                let j = choose|j: int|
                    0 <= j < row.len() && spec_has_destination(
                        (#[trigger] row[j]).destination,
                        medium,
                        recipient,
                    );
                assert(j < row.len() - 1);
                assert(row.drop_last()[j] == row[j]);
            }
            if row_has_match(row.drop_last(), medium, recipient) {
                let j = choose|j: int|
                    0 <= j < row.drop_last().len() && spec_has_destination(
                        (#[trigger] row.drop_last()[j]).destination,
                        medium,
                        recipient,
                    );
                assert(row[j] == row.drop_last()[j]);
            }
        }
    }
}

impl Block {
    /// The bundles of messages this block sends via `medium` to
    /// `recipient`: one bundle per transaction that has at least one
    /// matching message, in transaction order, each carrying its
    /// transaction index and its matching messages with their original
    /// relative order and flat indices. This is the exact ordered,
    /// at-most-once sequence the receiving chain will process. If the
    /// medium is a channel, subscription of the recipient is the
    /// caller's concern.
    #[verifier::rlimit(100)]
    pub fn message_bundles_for(
        &self,
        medium: &Medium,
        recipient: ChainId,
        certificate_hash: CryptoHash,
    ) -> (r: Vec<(Epoch, MessageBundle)>)
        requires
            flatten_msgs(self.body.messages@).len() <= u32::MAX,
            self.body.messages@.len() <= u32::MAX,
        ensures
            forall|k: int|
                0 <= k < r@.len() ==> {
                    let b = (#[trigger] r@[k]).1;
                    &&& r@[k].0 == self.header.epoch
                    &&& b.height == self.header.height
                    &&& b.timestamp == self.header.timestamp
                    &&& b.certificate_hash == certificate_hash
                    &&& b.transaction_index < self.body.messages@.len()
                    &&& row_has_match(
                        self.body.messages@[b.transaction_index as int]@,
                        *medium,
                        recipient,
                    )
                    &&& posted_row_matches(
                        self.body.messages@[b.transaction_index as int]@,
                        flatten_msgs(
                            self.body.messages@.take(b.transaction_index as int),
                        ).len() as int,
                        *medium,
                        recipient,
                        b.messages@,
                    )
                },
            forall|k1: int, k2: int|
                0 <= k1 < k2 < r@.len() ==> (#[trigger] r@[k1]).1.transaction_index < (
                #[trigger] r@[k2]).1.transaction_index,
            forall|t: int|
                0 <= t < self.body.messages@.len() && row_has_match(
                    (#[trigger] self.body.messages@[t])@,
                    *medium,
                    recipient,
                ) ==> exists|k: int|
                    0 <= k < r@.len() && (#[trigger] r@[k]).1.transaction_index == t,
    {
        let rows = &self.body.messages;
        let mut out: Vec<(Epoch, MessageBundle)> = Vec::new();
        let mut index: u32 = 0;
        let mut t: usize = 0;
        proof {
            assert(rows@.take(0) =~= Seq::<Vec<OutgoingMessage>>::empty());
        }
        while t < rows.len()
            invariant
                0 <= t <= rows@.len(),
                rows@ == self.body.messages@,
                flatten_msgs(rows@).len() <= u32::MAX,
                rows@.len() <= u32::MAX,
                index == flatten_msgs(rows@.take(t as int)).len(),
                forall|k: int|
                    0 <= k < out@.len() ==> {
                        let b = (#[trigger] out@[k]).1;
                        &&& out@[k].0 == self.header.epoch
                        &&& b.height == self.header.height
                        &&& b.timestamp == self.header.timestamp
                        &&& b.certificate_hash == certificate_hash
                        &&& b.transaction_index < t
                        &&& row_has_match(rows@[b.transaction_index as int]@, *medium, recipient)
                        &&& posted_row_matches(
                            rows@[b.transaction_index as int]@,
                            flatten_msgs(rows@.take(b.transaction_index as int)).len() as int,
                            *medium,
                            recipient,
                            b.messages@,
                        )
                    },
                forall|k1: int, k2: int|
                    0 <= k1 < k2 < out@.len() ==> (#[trigger] out@[k1]).1.transaction_index < (
                    #[trigger] out@[k2]).1.transaction_index,
                forall|t2: int|
                    0 <= t2 < t && row_has_match((#[trigger] rows@[t2])@, *medium, recipient)
                        ==> exists|k: int|
                        0 <= k < out@.len() && (#[trigger] out@[k]).1.transaction_index == t2,
            decreases rows@.len() - t,
        {
            let row = &rows[t];
            let ghost base = index as int;
            let mut posted: Vec<PostedMessage> = Vec::new();
            let mut j: usize = 0;
            proof {
                lemma_flatten_take(rows@, t as int);
                lemma_flatten_take_mono(rows@, t + 1 as int, rows@.len() as int);
                assert(rows@.take(rows@.len() as int) =~= rows@);
                assert(base + row@.len() <= u32::MAX);
                assert(row@.take(0) =~= Seq::<OutgoingMessage>::empty());
            }
            while j < row.len()
                invariant
                    0 <= j <= row@.len(),
                    0 <= t < rows@.len(),
                    rows@ == self.body.messages@,
                    row == rows@[t as int],
                    base + row@.len() <= u32::MAX,
                    0 <= base,
                    index as int == base,
                    posted_row_matches(
                        row@.take(j as int),
                        base,
                        *medium,
                        recipient,
                        posted@,
                    ),
                decreases row@.len() - j,
            {
                let ghost taken = row@.take(j + 1 as int);
                proof {
                    assert(taken.drop_last() =~= row@.take(j as int));
                    assert(taken.last() == row@[j as int]);
                }
                let m = &row[j];
                if m.has_destination(medium, recipient) {
                    let p = m.into_posted(index + j as u32);
                    let ghost before = posted@;
                    posted.push(p);
                    proof {
                        assert(posted@.drop_last() =~= before);
                        assert(posted@.last() == p);
                        assert((base + (j + 1) - 1) as u32 == index + j as u32);
                    }
                }
                j = j + 1;
            }
            proof {
                assert(row@.take(row@.len() as int) =~= row@);
                lemma_posted_row_empty(row@, base, *medium, recipient, posted@);
            }
            if posted.len() > 0 {
                let bundle = MessageBundle {
                    height: self.header.height,
                    timestamp: self.header.timestamp,
                    certificate_hash,
                    transaction_index: t as u32,
                    messages: posted,
                };
                let ghost before_out = out@;
                out.push((self.header.epoch, bundle));
                proof {
                    assert(out@.drop_last() =~= before_out);
                    assert forall|t2: int|
                        0 <= t2 < t + 1 && row_has_match(
                            (#[trigger] rows@[t2])@,
                            *medium,
                            recipient,
                        ) implies exists|k: int|
                        0 <= k < out@.len() && (#[trigger] out@[k]).1.transaction_index == t2 by {
                        if t2 < t {
                            let k = choose|k: int|
                                0 <= k < before_out.len() && (
                                #[trigger] before_out[k]).1.transaction_index == t2;
                            assert(out@[k].1.transaction_index == t2);
                        } else {
                            assert(out@[out@.len() - 1].1.transaction_index == t2);
                        }
                    }
                }
            } else {
                proof {
                    assert(!row_has_match(rows@[t as int]@, *medium, recipient));
                }
            }
            let row_len: usize = row.len();
            index = index + row_len as u32;
            t = t + 1;
        }
        proof {
            assert(rows@.take(rows@.len() as int) =~= rows@);
        }
        out
    }
}

} // verus!
