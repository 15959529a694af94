//! Identifiers and value types of the block data model: chains, heights,
//! epochs, message and blob identifiers, operations, messages and
//! bundles, all held as plain values, each with its canonical encoding.

use vstd::prelude::*;

use crate::encoding::{enc_bytes, enc_u32, enc_u64, write_bytes, write_u32, write_u64};
use crate::hashing::CryptoHash;

verus! {

/// The opaque identifier of an account or key holder: the canonical hash
/// of its public key, distinct from the public key itself.
#[derive(Debug, Clone, Copy, PartialEq, Eq, Structural)]
pub struct AccountOwner(pub CryptoHash);

impl View for AccountOwner {
    type V = Seq<u8>;

    open spec fn view(&self) -> Seq<u8> {
        self.0@
    }
}

impl AccountOwner {
    /// The owner derived from a public key: the key's canonical hash.
    pub fn from_public_key(pk: &crate::signing::Secp256k1PublicKey) -> (r: AccountOwner)
        ensures
            r@ == crate::hashing::hash_of(*pk),
    {
        AccountOwner(CryptoHash::new(pk))
    }
}

/// The identifier of a chain.
#[derive(Debug, Clone, Copy, PartialEq, Eq, Structural)]
pub struct ChainId(pub CryptoHash);

/// A block height on a chain.
#[derive(Debug, Clone, Copy, PartialEq, Eq, Structural)]
pub struct BlockHeight(pub u64);

/// A consensus epoch.
#[derive(Debug, Clone, Copy, PartialEq, Eq, Structural)]
pub struct Epoch(pub u32);

/// A timestamp, in microseconds.
#[derive(Debug, Clone, Copy, PartialEq, Eq, Structural)]
pub struct Timestamp(pub u64);

/// The system-wide identity of one outgoing message: the chain and height
/// of the block that sent it and the message's flat index in that block.
#[derive(Debug, Clone, Copy, PartialEq, Eq, Structural)]
pub struct MessageId {
    pub chain_id: ChainId,
    pub height: BlockHeight,
    pub index: u32,
}

/// What kind of content a blob holds.
#[derive(Debug, Clone, Copy, PartialEq, Eq, Structural)]
pub enum BlobType {
    Data,
    ContractBytecode,
    ServiceBytecode,
}

/// The identity of one blob: its content hash and its kind.
#[derive(Debug, Clone, Copy, PartialEq, Eq, Structural)]
pub struct BlobId {
    pub hash: CryptoHash,
    pub blob_type: BlobType,
}

impl BlobId {
    /// Pairs a content hash with a blob kind.
    pub fn new(hash: CryptoHash, blob_type: BlobType) -> (r: BlobId)
        ensures
            r == (BlobId { hash, blob_type }),
    {
        BlobId { hash, blob_type }
    }
}

/// The paired contract and service bytecode blobs of an application.
#[derive(Debug, Clone, Copy, PartialEq, Eq, Structural)]
pub struct BytecodeId {
    pub contract_blob_hash: CryptoHash,
    pub service_blob_hash: CryptoHash,
}

/// A blob of out-of-band content a block may depend on.
#[derive(Debug)]
pub struct Blob {
    pub blob_type: BlobType,
    pub bytes: Vec<u8>,
}

/// The recorded result of an external query made during execution,
/// replayed identically during validation.
#[derive(Debug)]
pub enum OracleResponse {
    /// A response from a service query.
    Service(Vec<u8>),
    /// A blob that execution read.
    Blob(BlobId),
    /// An assertion that held.
    Assert,
}

/// A protocol-level operation.
#[derive(Debug)]
pub enum SystemOperation {
    /// Publishes a data blob.
    PublishDataBlob { blob_hash: CryptoHash },
    /// Publishes a contract/service bytecode pair.
    PublishBytecode { bytecode_id: BytecodeId },
    /// Closes the chain.
    CloseChain,
}

/// An operation to execute in a block.
#[derive(Debug)]
pub enum Operation {
    /// A protocol-level operation.
    System(SystemOperation),
    /// An application operation, as opaque bytes.
    User(Vec<u8>),
}

/// The name of a broadcast channel.
#[derive(Debug)]
pub struct ChannelName(pub Vec<u8>);

/// How a message travels: directly to one chain, or over a channel.
#[derive(Debug)]
pub enum Medium {
    Direct,
    Channel(ChannelName),
}

/// Where an outgoing message is addressed.
#[derive(Debug)]
pub enum Destination {
    /// One chain.
    Recipient(ChainId),
    /// All subscribers of a channel.
    Subscribers(ChannelName),
}

/// How a message participates in fee accounting and retries.
#[derive(Debug, Clone, Copy, PartialEq, Eq, Structural)]
pub enum MessageKind {
    Simple,
    Protected,
    Bouncing,
}

/// Whether a received message is executed or rejected.
#[derive(Debug, Clone, Copy, PartialEq, Eq, Structural)]
pub enum MessageAction {
    Accept,
    Reject,
}

/// The configuration a new chain starts from.
#[derive(Debug, Clone, Copy, PartialEq, Eq, Structural)]
pub struct OpenChainConfig {
    pub admin_id: ChainId,
    pub epoch: Epoch,
    pub balance: u64,
}

/// A protocol-level message.
#[derive(Debug, Clone, Copy, PartialEq, Eq, Structural)]
pub enum SystemMessage {
    /// Opens a new chain with the given configuration.
    OpenChain(OpenChainConfig),
    /// Credits an amount to the receiving chain.
    Credit { amount: u64 },
}

/// The content of a cross-chain message.
#[derive(Debug)]
pub enum Message {
    /// A protocol-level message.
    System(SystemMessage),
    /// An application message, as opaque bytes.
    User(Vec<u8>),
}

/// Whether two message contents are the same, compared by value.
pub open spec fn message_matches(a: Message, b: Message) -> bool {
    match (a, b) {
        (Message::System(x), Message::System(y)) => x == y,
        (Message::User(x), Message::User(y)) => x@ == y@,
        _ => false,
    }
}

impl Message {
    /// The new-chain configuration, when this is an open-chain message.
    pub fn matches_open_chain(&self) -> (r: Option<&OpenChainConfig>)
        ensures
            r is Some <==> *self matches Message::System(SystemMessage::OpenChain(_)),
            r matches Some(c) ==> *self == Message::System(SystemMessage::OpenChain(*c)),
    {
        match self {
            Message::System(SystemMessage::OpenChain(config)) => Some(config),
            _ => None,
        }
    }

    /// A by-value copy with the same content.
    pub fn duplicate(&self) -> (r: Message)
        ensures
            message_matches(*self, r),
    {
        match self {
            Message::System(m) => Message::System(*m),
            Message::User(bytes) => {
                let mut copy: Vec<u8> = Vec::new();
                let mut i: usize = 0;
                while i < bytes.len()
                    invariant
                        0 <= i <= bytes@.len(),
                        copy@ =~= bytes@.take(i as int),
                    decreases bytes@.len() - i,
                {
                    copy.push(bytes[i]);
                    proof {
                        assert(copy@ =~= bytes@.take(i + 1 as int));
                    }
                    i = i + 1;
                }
                proof {
                    assert(copy@ =~= bytes@);
                }
                Message::User(copy)
            },
        }
    }
}

/// A message sent by a block, with its routing and accounting data.
#[derive(Debug)]
pub struct OutgoingMessage {
    pub destination: Destination,
    pub authenticated_signer: Option<AccountOwner>,
    pub grant: u64,
    pub refund_grant_to: Option<AccountOwner>,
    pub kind: MessageKind,
    pub message: Message,
}

/// An outgoing message as it appears in a bundle handed to its recipient,
/// carrying its flat index in the sending block.
#[derive(Debug)]
pub struct PostedMessage {
    pub authenticated_signer: Option<AccountOwner>,
    pub grant: u64,
    pub refund_grant_to: Option<AccountOwner>,
    pub kind: MessageKind,
    pub index: u32,
    pub message: Message,
}

/// Whether `p` is exactly `m` posted at flat index `index`.
pub open spec fn posted_of(m: OutgoingMessage, index: u32, p: PostedMessage) -> bool {
    p.authenticated_signer == m.authenticated_signer && p.grant == m.grant && p.refund_grant_to
        == m.refund_grant_to && p.kind == m.kind && p.index == index && message_matches(
        m.message,
        p.message,
    )
}

/// Whether a message addressed to `dest` travels via `medium` to
/// `recipient`.
pub open spec fn spec_has_destination(dest: Destination, medium: Medium, recipient: ChainId) -> bool {
    match (dest, medium) {
        (Destination::Recipient(id), Medium::Direct) => id == recipient,
        (Destination::Subscribers(a), Medium::Channel(b)) => a.0@ == b.0@,
        _ => false,
    }
}

/// Whether two byte vectors hold the same bytes.
fn bytes_eq(a: &Vec<u8>, b: &Vec<u8>) -> (r: bool)
    ensures
        r == (a@ == b@),
{
    if a.len() != b.len() {
        return false;
    }
    let mut i: usize = 0;
    while i < a.len()
        invariant
            0 <= i <= a@.len(),
            a@.len() == b@.len(),
            forall|j: int| 0 <= j < i ==> a@[j] == b@[j],
        decreases a@.len() - i,
    {
        if a[i] != b[i] {
            return false;
        }
        i = i + 1;
    }
    proof {
        assert(a@ =~= b@);
    }
    true
}

impl OutgoingMessage {
    /// Whether this message is addressed, via `medium`, to `recipient`.
    pub fn has_destination(&self, medium: &Medium, recipient: ChainId) -> (r: bool)
        ensures
            r == spec_has_destination(self.destination, *medium, recipient),
    {
        match (&self.destination, medium) {
            (Destination::Recipient(id), Medium::Direct) => id.0.equals(&recipient.0),
            (Destination::Subscribers(a), Medium::Channel(b)) => bytes_eq(&a.0, &b.0),
            _ => false,
        }
    }

    /// The posted form of this message, at flat index `index` of its
    /// block.
    pub fn into_posted(&self, index: u32) -> (r: PostedMessage)
        ensures
            posted_of(*self, index, r),
    {
        PostedMessage {
            authenticated_signer: self.authenticated_signer,
            grant: self.grant,
            refund_grant_to: self.refund_grant_to,
            kind: self.kind,
            index,
            message: self.message.duplicate(),
        }
    }
}

/// The messages one transaction of a block sent to one recipient, with
/// everything the recipient needs to process them in order, exactly once.
#[derive(Debug)]
pub struct MessageBundle {
    pub height: BlockHeight,
    pub timestamp: Timestamp,
    pub certificate_hash: CryptoHash,
    pub transaction_index: u32,
    pub messages: Vec<PostedMessage>,
}

/// Where an incoming bundle came from.
#[derive(Debug)]
pub struct Origin {
    pub sender: ChainId,
    pub medium: Medium,
}

/// A bundle of messages received from another chain, with the action the
/// receiving block takes on it.
#[derive(Debug)]
pub struct IncomingBundle {
    pub origin: Origin,
    pub bundle: MessageBundle,
    pub action: MessageAction,
}

/// A record appended to an event stream during execution.
#[derive(Debug)]
pub struct EventRecord {
    pub stream_id: Vec<u8>,
    pub key: Vec<u8>,
    pub value: Vec<u8>,
}

/// What execution of a proposed block produced: the new state hash and
/// the per-transaction messages, oracle responses and events.
#[derive(Debug)]
pub struct BlockExecutionOutcome {
    pub state_hash: CryptoHash,
    pub messages: Vec<Vec<OutgoingMessage>>,
    pub oracle_responses: Vec<Vec<OracleResponse>>,
    pub events: Vec<Vec<EventRecord>>,
}

/// One transaction of a block, by reference: a received bundle or an
/// executed operation; incoming bundles come first.
#[derive(Debug)]
pub enum Transaction<'a> {
    /// Receives the messages of an incoming bundle.
    ReceiveMessages(&'a IncomingBundle),
    /// Executes an operation.
    ExecuteOperation(&'a Operation),
}

/// An optional hash: a presence byte, then the digest bytes.
pub open spec fn enc_opt_hash(o: Option<CryptoHash>) -> Seq<u8> {
    match o {
        Option::None => seq![0u8],
        Option::Some(h) => seq![1u8] + h@,
    }
}

pub fn write_opt_hash(out: &mut Vec<u8>, o: &Option<CryptoHash>)
    ensures
        final(out)@ == old(out)@ + enc_opt_hash(*o),
{
    match o {
        None => {
            out.push(0);
            proof {
                assert(out@ =~= old(out)@ + enc_opt_hash(*o));
            }
        },
        Some(h) => {
            out.push(1);
            h.write_into(out);
            proof {
                assert(out@ =~= old(out)@ + enc_opt_hash(*o));
            }
        },
    }
}

/// An optional account owner: a presence byte, then the owner digest.
pub open spec fn enc_opt_owner(o: Option<AccountOwner>) -> Seq<u8> {
    match o {
        Option::None => seq![0u8],
        Option::Some(a) => seq![1u8] + a@,
    }
}

pub fn write_opt_owner(out: &mut Vec<u8>, o: &Option<AccountOwner>)
    ensures
        final(out)@ == old(out)@ + enc_opt_owner(*o),
{
    match o {
        None => {
            out.push(0);
            proof {
                assert(out@ =~= old(out)@ + enc_opt_owner(*o));
            }
        },
        Some(a) => {
            out.push(1);
            a.0.write_into(out);
            proof {
                assert(out@ =~= old(out)@ + enc_opt_owner(*o));
            }
        },
    }
}

/// A blob kind, as one byte.
pub open spec fn enc_blob_type(t: BlobType) -> Seq<u8> {
    match t {
        BlobType::Data => seq![0u8],
        BlobType::ContractBytecode => seq![1u8],
        BlobType::ServiceBytecode => seq![2u8],
    }
}

pub fn write_blob_type(out: &mut Vec<u8>, t: &BlobType)
    ensures
        final(out)@ == old(out)@ + enc_blob_type(*t),
{
    match t {
        BlobType::Data => out.push(0),
        BlobType::ContractBytecode => out.push(1),
        BlobType::ServiceBytecode => out.push(2),
    }
    proof {
        assert(out@ =~= old(out)@ + enc_blob_type(*t));
    }
}

/// A blob identity: its kind, then its content hash.
pub open spec fn enc_blob_id(b: BlobId) -> Seq<u8> {
    enc_blob_type(b.blob_type) + b.hash@
}

pub fn write_blob_id(out: &mut Vec<u8>, b: &BlobId)
    ensures
        final(out)@ == old(out)@ + enc_blob_id(*b),
{
    write_blob_type(out, &b.blob_type);
    b.hash.write_into(out);
    proof {
        assert(out@ =~= old(out)@ + enc_blob_id(*b));
    }
}

/// An oracle response: a variant byte, then its fields.
pub open spec fn enc_oracle(r: OracleResponse) -> Seq<u8> {
    match r {
        OracleResponse::Service(v) => seq![0u8] + enc_bytes(v@),
        OracleResponse::Blob(id) => seq![1u8] + enc_blob_id(id),
        OracleResponse::Assert => seq![2u8],
    }
}

pub fn write_oracle(out: &mut Vec<u8>, r: &OracleResponse)
    ensures
        final(out)@ == old(out)@ + enc_oracle(*r),
{
    match r {
        OracleResponse::Service(v) => {
            out.push(0);
            write_bytes(out, v.as_slice());
        },
        OracleResponse::Blob(id) => {
            out.push(1);
            write_blob_id(out, id);
        },
        OracleResponse::Assert => out.push(2),
    }
    proof {
        assert(out@ =~= old(out)@ + enc_oracle(*r));
    }
}

/// An operation: a variant byte, then its fields.
pub open spec fn enc_operation(o: Operation) -> Seq<u8> {
    match o {
        Operation::System(s) => seq![0u8] + enc_system_operation(s),
        Operation::User(v) => seq![1u8] + enc_bytes(v@),
    }
}

/// A protocol operation: a variant byte, then its fields.
pub open spec fn enc_system_operation(o: SystemOperation) -> Seq<u8> {
    match o {
        SystemOperation::PublishDataBlob { blob_hash } => seq![0u8] + blob_hash@,
        SystemOperation::PublishBytecode { bytecode_id } => seq![1u8]
            + bytecode_id.contract_blob_hash@ + bytecode_id.service_blob_hash@,
        SystemOperation::CloseChain => seq![2u8],
    }
}

pub fn write_operation(out: &mut Vec<u8>, o: &Operation)
    ensures
        final(out)@ == old(out)@ + enc_operation(*o),
{
    match o {
        Operation::System(s) => {
            out.push(0);
            match s {
                SystemOperation::PublishDataBlob { blob_hash } => {
                    out.push(0);
                    blob_hash.write_into(out);
                },
                SystemOperation::PublishBytecode { bytecode_id } => {
                    out.push(1);
                    bytecode_id.contract_blob_hash.write_into(out);
                    bytecode_id.service_blob_hash.write_into(out);
                },
                SystemOperation::CloseChain => out.push(2),
            }
        },
        Operation::User(v) => {
            out.push(1);
            write_bytes(out, v.as_slice());
        },
    }
    proof {
        assert(out@ =~= old(out)@ + enc_operation(*o));
    }
}

/// A medium: direct, or a channel by name.
pub open spec fn enc_medium(m: Medium) -> Seq<u8> {
    match m {
        Medium::Direct => seq![0u8],
        Medium::Channel(n) => seq![1u8] + enc_bytes(n.0@),
    }
}

pub fn write_medium(out: &mut Vec<u8>, m: &Medium)
    ensures
        final(out)@ == old(out)@ + enc_medium(*m),
{
    match m {
        Medium::Direct => out.push(0),
        Medium::Channel(n) => {
            out.push(1);
            write_bytes(out, n.0.as_slice());
        },
    }
    proof {
        assert(out@ =~= old(out)@ + enc_medium(*m));
    }
}

/// A destination: one recipient chain, or a channel's subscribers.
pub open spec fn enc_destination(d: Destination) -> Seq<u8> {
    match d {
        Destination::Recipient(id) => seq![0u8] + id.0@,
        Destination::Subscribers(n) => seq![1u8] + enc_bytes(n.0@),
    }
}

pub fn write_destination(out: &mut Vec<u8>, d: &Destination)
    ensures
        final(out)@ == old(out)@ + enc_destination(*d),
{
    match d {
        Destination::Recipient(id) => {
            out.push(0);
            id.0.write_into(out);
        },
        Destination::Subscribers(n) => {
            out.push(1);
            write_bytes(out, n.0.as_slice());
        },
    }
    proof {
        assert(out@ =~= old(out)@ + enc_destination(*d));
    }
}

/// A message kind, as one byte.
pub open spec fn enc_message_kind(k: MessageKind) -> Seq<u8> {
    match k {
        MessageKind::Simple => seq![0u8],
        MessageKind::Protected => seq![1u8],
        MessageKind::Bouncing => seq![2u8],
    }
}

pub fn write_message_kind(out: &mut Vec<u8>, k: &MessageKind)
    ensures
        final(out)@ == old(out)@ + enc_message_kind(*k),
{
    match k {
        MessageKind::Simple => out.push(0),
        MessageKind::Protected => out.push(1),
        MessageKind::Bouncing => out.push(2),
    }
    proof {
        assert(out@ =~= old(out)@ + enc_message_kind(*k));
    }
}

/// A message action, as one byte.
pub open spec fn enc_message_action(a: MessageAction) -> Seq<u8> {
    match a {
        MessageAction::Accept => seq![0u8],
        MessageAction::Reject => seq![1u8],
    }
}

pub fn write_message_action(out: &mut Vec<u8>, a: &MessageAction)
    ensures
        final(out)@ == old(out)@ + enc_message_action(*a),
{
    match a {
        MessageAction::Accept => out.push(0),
        MessageAction::Reject => out.push(1),
    }
    proof {
        assert(out@ =~= old(out)@ + enc_message_action(*a));
    }
}

/// A message content: a variant byte, then its fields.
pub open spec fn enc_message(m: Message) -> Seq<u8> {
    match m {
        Message::System(s) => seq![0u8] + enc_system_message(s),
        Message::User(v) => seq![1u8] + enc_bytes(v@),
    }
}

/// A protocol message: a variant byte, then its fields.
pub open spec fn enc_system_message(m: SystemMessage) -> Seq<u8> {
    match m {
        SystemMessage::OpenChain(c) => seq![0u8] + c.admin_id.0@ + enc_u32(c.epoch.0) + enc_u64(
            c.balance,
        ),
        SystemMessage::Credit { amount } => seq![1u8] + enc_u64(amount),
    }
}

pub fn write_message(out: &mut Vec<u8>, m: &Message)
    ensures
        final(out)@ == old(out)@ + enc_message(*m),
{
    match m {
        Message::System(s) => {
            out.push(0);
            match s {
                SystemMessage::OpenChain(c) => {
                    out.push(0);
                    c.admin_id.0.write_into(out);
                    write_u32(out, c.epoch.0);
                    write_u64(out, c.balance);
                },
                SystemMessage::Credit { amount } => {
                    out.push(1);
                    write_u64(out, *amount);
                },
            }
        },
        Message::User(v) => {
            out.push(1);
            write_bytes(out, v.as_slice());
        },
    }
    proof {
        assert(out@ =~= old(out)@ + enc_message(*m));
    }
}

/// An outgoing message: destination, signer, grant, refund target, kind
/// and content.
pub open spec fn enc_out_msg(m: OutgoingMessage) -> Seq<u8> {
    enc_destination(m.destination) + enc_opt_owner(m.authenticated_signer) + enc_u64(m.grant)
        + enc_opt_owner(m.refund_grant_to) + enc_message_kind(m.kind) + enc_message(m.message)
}

pub fn write_out_msg(out: &mut Vec<u8>, m: &OutgoingMessage)
    ensures
        final(out)@ == old(out)@ + enc_out_msg(*m),
{
    write_destination(out, &m.destination);
    write_opt_owner(out, &m.authenticated_signer);
    write_u64(out, m.grant);
    write_opt_owner(out, &m.refund_grant_to);
    write_message_kind(out, &m.kind);
    write_message(out, &m.message);
    proof {
        assert(out@ =~= old(out)@ + enc_out_msg(*m));
    }
}

/// A posted message: signer, grant, refund target, kind, flat index and
/// content.
pub open spec fn enc_posted(m: PostedMessage) -> Seq<u8> {
    enc_opt_owner(m.authenticated_signer) + enc_u64(m.grant) + enc_opt_owner(m.refund_grant_to)
        + enc_message_kind(m.kind) + enc_u32(m.index) + enc_message(m.message)
}

pub fn write_posted(out: &mut Vec<u8>, m: &PostedMessage)
    ensures
        final(out)@ == old(out)@ + enc_posted(*m),
{
    write_opt_owner(out, &m.authenticated_signer);
    write_u64(out, m.grant);
    write_opt_owner(out, &m.refund_grant_to);
    write_message_kind(out, &m.kind);
    write_u32(out, m.index);
    write_message(out, &m.message);
    proof {
        assert(out@ =~= old(out)@ + enc_posted(*m));
    }
}


/// The concatenated encodings of a sequence of posted messages.
pub open spec fn enc_posted_seq(s: Seq<PostedMessage>) -> Seq<u8>
    decreases s.len(),
{
    if s.len() == 0 {
        Seq::empty()
    } else {
        enc_posted_seq(s.drop_last()) + enc_posted(s.last())
    }
}

/// A counted list of posted messages.
pub open spec fn enc_posted_list(s: Seq<PostedMessage>) -> Seq<u8> {
    enc_u64(s.len() as u64) + enc_posted_seq(s)
}


proof fn lemma_posted_take(s: Seq<PostedMessage>, i: int)
    requires
        0 <= i < s.len(),
    ensures
        enc_posted_seq(s.take(i + 1)) == enc_posted_seq(s.take(i)) + enc_posted(s[i]),
{
    let t = s.take(i + 1);
    assert(t.drop_last() =~= s.take(i));
    assert(t.last() == s[i]);
}


pub fn write_posted_list(out: &mut Vec<u8>, items: &Vec<PostedMessage>)
    ensures
        final(out)@ == old(out)@ + enc_posted_list(items@),
{
    write_u64(out, items.len() as u64);
    let ghost head = out@;
    proof {
        assert(out@ =~= head + enc_posted_seq(items@.take(0)));
    }
    let mut i: usize = 0;
    while i < items.len()
        invariant
            0 <= i <= items@.len(),
            out@ == head + enc_posted_seq(items@.take(i as int)),
        decreases items@.len() - i,
    {
        write_posted(out, &items[i]);
        proof {
            lemma_posted_take(items@, i as int);
            assert(out@ =~= head + enc_posted_seq(items@.take(i + 1 as int)));
        }
        i = i + 1;
    }
    proof {
        assert(items@.take(items@.len() as int) =~= items@);
    }
}


/// A message bundle: block height and timestamp, certificate hash,
/// transaction index, and the posted messages.
pub open spec fn enc_message_bundle(b: MessageBundle) -> Seq<u8> {
    enc_u64(b.height.0) + enc_u64(b.timestamp.0) + b.certificate_hash@ + enc_u32(
        b.transaction_index,
    ) + enc_posted_list(b.messages@)
}

pub fn write_message_bundle(out: &mut Vec<u8>, b: &MessageBundle)
    ensures
        final(out)@ == old(out)@ + enc_message_bundle(*b),
{
    write_u64(out, b.height.0);
    write_u64(out, b.timestamp.0);
    b.certificate_hash.write_into(out);
    write_u32(out, b.transaction_index);
    write_posted_list(out, &b.messages);
    proof {
        assert(out@ =~= old(out)@ + enc_message_bundle(*b));
    }
}

/// An incoming bundle: its origin, the bundle itself, and the action
/// taken on it.
pub open spec fn enc_bundle(b: IncomingBundle) -> Seq<u8> {
    b.origin.sender.0@ + enc_medium(b.origin.medium) + enc_message_bundle(b.bundle)
        + enc_message_action(b.action)
}

pub fn write_bundle(out: &mut Vec<u8>, b: &IncomingBundle)
    ensures
        final(out)@ == old(out)@ + enc_bundle(*b),
{
    b.origin.sender.0.write_into(out);
    write_medium(out, &b.origin.medium);
    write_message_bundle(out, &b.bundle);
    write_message_action(out, &b.action);
    proof {
        assert(out@ =~= old(out)@ + enc_bundle(*b));
    }
}

/// An event record: stream, key and value.
pub open spec fn enc_event(e: EventRecord) -> Seq<u8> {
    enc_bytes(e.stream_id@) + enc_bytes(e.key@) + enc_bytes(e.value@)
}

pub fn write_event(out: &mut Vec<u8>, e: &EventRecord)
    ensures
        final(out)@ == old(out)@ + enc_event(*e),
{
    write_bytes(out, e.stream_id.as_slice());
    write_bytes(out, e.key.as_slice());
    write_bytes(out, e.value.as_slice());
    proof {
        assert(out@ =~= old(out)@ + enc_event(*e));
    }
}

/// A blob: its kind and its content bytes.
pub open spec fn enc_blob(b: Blob) -> Seq<u8> {
    enc_blob_type(b.blob_type) + enc_bytes(b.bytes@)
}

pub fn write_blob(out: &mut Vec<u8>, b: &Blob)
    ensures
        final(out)@ == old(out)@ + enc_blob(*b),
{
    write_blob_type(out, &b.blob_type);
    write_bytes(out, b.bytes.as_slice());
    proof {
        assert(out@ =~= old(out)@ + enc_blob(*b));
    }
}


/// The concatenated encodings of a sequence of incoming bundles.
pub open spec fn enc_bundle_seq(s: Seq<IncomingBundle>) -> Seq<u8>
    decreases s.len(),
{
    if s.len() == 0 {
        Seq::empty()
    } else {
        enc_bundle_seq(s.drop_last()) + enc_bundle(s.last())
    }
}

/// A counted list of incoming bundles.
pub open spec fn enc_bundle_list(s: Seq<IncomingBundle>) -> Seq<u8> {
    enc_u64(s.len() as u64) + enc_bundle_seq(s)
}


proof fn lemma_bundle_take(s: Seq<IncomingBundle>, i: int)
    requires
        0 <= i < s.len(),
    ensures
        enc_bundle_seq(s.take(i + 1)) == enc_bundle_seq(s.take(i)) + enc_bundle(s[i]),
{
    let t = s.take(i + 1);
    assert(t.drop_last() =~= s.take(i));
    assert(t.last() == s[i]);
}


pub fn write_bundle_list(out: &mut Vec<u8>, items: &Vec<IncomingBundle>)
    ensures
        final(out)@ == old(out)@ + enc_bundle_list(items@),
{
    write_u64(out, items.len() as u64);
    let ghost head = out@;
    proof {
        assert(out@ =~= head + enc_bundle_seq(items@.take(0)));
    }
    let mut i: usize = 0;
    while i < items.len()
        invariant
            0 <= i <= items@.len(),
            out@ == head + enc_bundle_seq(items@.take(i as int)),
        decreases items@.len() - i,
    {
        write_bundle(out, &items[i]);
        proof {
            lemma_bundle_take(items@, i as int);
            assert(out@ =~= head + enc_bundle_seq(items@.take(i + 1 as int)));
        }
        i = i + 1;
    }
    proof {
        assert(items@.take(items@.len() as int) =~= items@);
    }
}


/// The concatenated encodings of a sequence of operations.
pub open spec fn enc_operation_seq(s: Seq<Operation>) -> Seq<u8>
    decreases s.len(),
{
    if s.len() == 0 {
        Seq::empty()
    } else {
        enc_operation_seq(s.drop_last()) + enc_operation(s.last())
    }
}

/// A counted list of operations.
pub open spec fn enc_operation_list(s: Seq<Operation>) -> Seq<u8> {
    enc_u64(s.len() as u64) + enc_operation_seq(s)
}


proof fn lemma_operation_take(s: Seq<Operation>, i: int)
    requires
        0 <= i < s.len(),
    ensures
        enc_operation_seq(s.take(i + 1)) == enc_operation_seq(s.take(i)) + enc_operation(s[i]),
{
    let t = s.take(i + 1);
    assert(t.drop_last() =~= s.take(i));
    assert(t.last() == s[i]);
}


pub fn write_operation_list(out: &mut Vec<u8>, items: &Vec<Operation>)
    ensures
        final(out)@ == old(out)@ + enc_operation_list(items@),
{
    write_u64(out, items.len() as u64);
    let ghost head = out@;
    proof {
        assert(out@ =~= head + enc_operation_seq(items@.take(0)));
    }
    let mut i: usize = 0;
    while i < items.len()
        invariant
            0 <= i <= items@.len(),
            out@ == head + enc_operation_seq(items@.take(i as int)),
        decreases items@.len() - i,
    {
        write_operation(out, &items[i]);
        proof {
            lemma_operation_take(items@, i as int);
            assert(out@ =~= head + enc_operation_seq(items@.take(i + 1 as int)));
        }
        i = i + 1;
    }
    proof {
        assert(items@.take(items@.len() as int) =~= items@);
    }
}


/// The concatenated encodings of a sequence of outgoing messages.
pub open spec fn enc_out_msg_seq(s: Seq<OutgoingMessage>) -> Seq<u8>
    decreases s.len(),
{
    if s.len() == 0 {
        Seq::empty()
    } else {
        enc_out_msg_seq(s.drop_last()) + enc_out_msg(s.last())
    }
}

/// A counted list of outgoing messages.
pub open spec fn enc_out_msg_list(s: Seq<OutgoingMessage>) -> Seq<u8> {
    enc_u64(s.len() as u64) + enc_out_msg_seq(s)
}


proof fn lemma_out_msg_take(s: Seq<OutgoingMessage>, i: int)
    requires
        0 <= i < s.len(),
    ensures
        enc_out_msg_seq(s.take(i + 1)) == enc_out_msg_seq(s.take(i)) + enc_out_msg(s[i]),
{
    let t = s.take(i + 1);
    assert(t.drop_last() =~= s.take(i));
    assert(t.last() == s[i]);
}


pub fn write_out_msg_list(out: &mut Vec<u8>, items: &Vec<OutgoingMessage>)
    ensures
        final(out)@ == old(out)@ + enc_out_msg_list(items@),
{
    write_u64(out, items.len() as u64);
    let ghost head = out@;
    proof {
        assert(out@ =~= head + enc_out_msg_seq(items@.take(0)));
    }
    let mut i: usize = 0;
    while i < items.len()
        invariant
            0 <= i <= items@.len(),
            out@ == head + enc_out_msg_seq(items@.take(i as int)),
        decreases items@.len() - i,
    {
        write_out_msg(out, &items[i]);
        proof {
            lemma_out_msg_take(items@, i as int);
            assert(out@ =~= head + enc_out_msg_seq(items@.take(i + 1 as int)));
        }
        i = i + 1;
    }
    proof {
        assert(items@.take(items@.len() as int) =~= items@);
    }
}


/// The concatenated encodings of a sequence of oracle responses.
pub open spec fn enc_oracle_seq(s: Seq<OracleResponse>) -> Seq<u8>
    decreases s.len(),
{
    if s.len() == 0 {
        Seq::empty()
    } else {
        enc_oracle_seq(s.drop_last()) + enc_oracle(s.last())
    }
}

/// A counted list of oracle responses.
pub open spec fn enc_oracle_list(s: Seq<OracleResponse>) -> Seq<u8> {
    enc_u64(s.len() as u64) + enc_oracle_seq(s)
}


proof fn lemma_oracle_take(s: Seq<OracleResponse>, i: int)
    requires
        0 <= i < s.len(),
    ensures
        enc_oracle_seq(s.take(i + 1)) == enc_oracle_seq(s.take(i)) + enc_oracle(s[i]),
{
    let t = s.take(i + 1);
    assert(t.drop_last() =~= s.take(i));
    assert(t.last() == s[i]);
}


pub fn write_oracle_list(out: &mut Vec<u8>, items: &Vec<OracleResponse>)
    ensures
        final(out)@ == old(out)@ + enc_oracle_list(items@),
{
    write_u64(out, items.len() as u64);
    let ghost head = out@;
    proof {
        assert(out@ =~= head + enc_oracle_seq(items@.take(0)));
    }
    let mut i: usize = 0;
    while i < items.len()
        invariant
            0 <= i <= items@.len(),
            out@ == head + enc_oracle_seq(items@.take(i as int)),
        decreases items@.len() - i,
    {
        write_oracle(out, &items[i]);
        proof {
            lemma_oracle_take(items@, i as int);
            assert(out@ =~= head + enc_oracle_seq(items@.take(i + 1 as int)));
        }
        i = i + 1;
    }
    proof {
        assert(items@.take(items@.len() as int) =~= items@);
    }
}


/// The concatenated encodings of a sequence of event records.
pub open spec fn enc_event_seq(s: Seq<EventRecord>) -> Seq<u8>
    decreases s.len(),
{
    if s.len() == 0 {
        Seq::empty()
    } else {
        enc_event_seq(s.drop_last()) + enc_event(s.last())
    }
}

/// A counted list of event records.
pub open spec fn enc_event_list(s: Seq<EventRecord>) -> Seq<u8> {
    enc_u64(s.len() as u64) + enc_event_seq(s)
}


proof fn lemma_event_take(s: Seq<EventRecord>, i: int)
    requires
        0 <= i < s.len(),
    ensures
        enc_event_seq(s.take(i + 1)) == enc_event_seq(s.take(i)) + enc_event(s[i]),
{
    let t = s.take(i + 1);
    assert(t.drop_last() =~= s.take(i));
    assert(t.last() == s[i]);
}


pub fn write_event_list(out: &mut Vec<u8>, items: &Vec<EventRecord>)
    ensures
        final(out)@ == old(out)@ + enc_event_list(items@),
{
    write_u64(out, items.len() as u64);
    let ghost head = out@;
    proof {
        assert(out@ =~= head + enc_event_seq(items@.take(0)));
    }
    let mut i: usize = 0;
    while i < items.len()
        invariant
            0 <= i <= items@.len(),
            out@ == head + enc_event_seq(items@.take(i as int)),
        decreases items@.len() - i,
    {
        write_event(out, &items[i]);
        proof {
            lemma_event_take(items@, i as int);
            assert(out@ =~= head + enc_event_seq(items@.take(i + 1 as int)));
        }
        i = i + 1;
    }
    proof {
        assert(items@.take(items@.len() as int) =~= items@);
    }
}


/// The concatenated encodings of a sequence of blobs.
pub open spec fn enc_blob_seq(s: Seq<Blob>) -> Seq<u8>
    decreases s.len(),
{
    if s.len() == 0 {
        Seq::empty()
    } else {
        enc_blob_seq(s.drop_last()) + enc_blob(s.last())
    }
}

/// A counted list of blobs.
pub open spec fn enc_blob_list(s: Seq<Blob>) -> Seq<u8> {
    enc_u64(s.len() as u64) + enc_blob_seq(s)
}


proof fn lemma_blob_take(s: Seq<Blob>, i: int)
    requires
        0 <= i < s.len(),
    ensures
        enc_blob_seq(s.take(i + 1)) == enc_blob_seq(s.take(i)) + enc_blob(s[i]),
{
    let t = s.take(i + 1);
    assert(t.drop_last() =~= s.take(i));
    assert(t.last() == s[i]);
}


pub fn write_blob_list(out: &mut Vec<u8>, items: &Vec<Blob>)
    ensures
        final(out)@ == old(out)@ + enc_blob_list(items@),
{
    write_u64(out, items.len() as u64);
    let ghost head = out@;
    proof {
        assert(out@ =~= head + enc_blob_seq(items@.take(0)));
    }
    let mut i: usize = 0;
    while i < items.len()
        invariant
            0 <= i <= items@.len(),
            out@ == head + enc_blob_seq(items@.take(i as int)),
        decreases items@.len() - i,
    {
        write_blob(out, &items[i]);
        proof {
            lemma_blob_take(items@, i as int);
            assert(out@ =~= head + enc_blob_seq(items@.take(i + 1 as int)));
        }
        i = i + 1;
    }
    proof {
        assert(items@.take(items@.len() as int) =~= items@);
    }
}


/// One per-transaction row, as a counted list.
pub open spec fn enc_out_msg_row(v: Vec<OutgoingMessage>) -> Seq<u8> {
    enc_out_msg_list(v@)
}

pub fn write_out_msg_row(out: &mut Vec<u8>, v: &Vec<OutgoingMessage>)
    ensures
        final(out)@ == old(out)@ + enc_out_msg_row(*v),
{
    write_out_msg_list(out, v);
}


/// The concatenated encodings of a sequence of per-transaction rows.
pub open spec fn enc_out_msg_row_seq(s: Seq<Vec<OutgoingMessage>>) -> Seq<u8>
    decreases s.len(),
{
    if s.len() == 0 {
        Seq::empty()
    } else {
        enc_out_msg_row_seq(s.drop_last()) + enc_out_msg_row(s.last())
    }
}

/// A counted list of per-transaction rows.
pub open spec fn enc_out_msg_row_list(s: Seq<Vec<OutgoingMessage>>) -> Seq<u8> {
    enc_u64(s.len() as u64) + enc_out_msg_row_seq(s)
}


proof fn lemma_out_msg_row_take(s: Seq<Vec<OutgoingMessage>>, i: int)
    requires
        0 <= i < s.len(),
    ensures
        enc_out_msg_row_seq(s.take(i + 1)) == enc_out_msg_row_seq(s.take(i)) + enc_out_msg_row(s[i]),
{
    let t = s.take(i + 1);
    assert(t.drop_last() =~= s.take(i));
    assert(t.last() == s[i]);
}


pub fn write_out_msg_row_list(out: &mut Vec<u8>, items: &Vec<Vec<OutgoingMessage>>)
    ensures
        final(out)@ == old(out)@ + enc_out_msg_row_list(items@),
{
    write_u64(out, items.len() as u64);
    let ghost head = out@;
    proof {
        assert(out@ =~= head + enc_out_msg_row_seq(items@.take(0)));
    }
    let mut i: usize = 0;
    while i < items.len()
        invariant
            0 <= i <= items@.len(),
            out@ == head + enc_out_msg_row_seq(items@.take(i as int)),
        decreases items@.len() - i,
    {
        write_out_msg_row(out, &items[i]);
        proof {
            lemma_out_msg_row_take(items@, i as int);
            assert(out@ =~= head + enc_out_msg_row_seq(items@.take(i + 1 as int)));
        }
        i = i + 1;
    }
    proof {
        assert(items@.take(items@.len() as int) =~= items@);
    }
}


/// One per-transaction row, as a counted list.
pub open spec fn enc_oracle_row(v: Vec<OracleResponse>) -> Seq<u8> {
    enc_oracle_list(v@)
}

pub fn write_oracle_row(out: &mut Vec<u8>, v: &Vec<OracleResponse>)
    ensures
        final(out)@ == old(out)@ + enc_oracle_row(*v),
{
    write_oracle_list(out, v);
}


/// The concatenated encodings of a sequence of per-transaction rows.
pub open spec fn enc_oracle_row_seq(s: Seq<Vec<OracleResponse>>) -> Seq<u8>
    decreases s.len(),
{
    if s.len() == 0 {
        Seq::empty()
    } else {
        enc_oracle_row_seq(s.drop_last()) + enc_oracle_row(s.last())
    }
}

/// A counted list of per-transaction rows.
pub open spec fn enc_oracle_row_list(s: Seq<Vec<OracleResponse>>) -> Seq<u8> {
    enc_u64(s.len() as u64) + enc_oracle_row_seq(s)
}


proof fn lemma_oracle_row_take(s: Seq<Vec<OracleResponse>>, i: int)
    requires
        0 <= i < s.len(),
    ensures
        enc_oracle_row_seq(s.take(i + 1)) == enc_oracle_row_seq(s.take(i)) + enc_oracle_row(s[i]),
{
    let t = s.take(i + 1);
    assert(t.drop_last() =~= s.take(i));
    assert(t.last() == s[i]);
}


pub fn write_oracle_row_list(out: &mut Vec<u8>, items: &Vec<Vec<OracleResponse>>)
    ensures
        final(out)@ == old(out)@ + enc_oracle_row_list(items@),
{
    write_u64(out, items.len() as u64);
    let ghost head = out@;
    proof {
        assert(out@ =~= head + enc_oracle_row_seq(items@.take(0)));
    }
    let mut i: usize = 0;
    while i < items.len()
        invariant
            0 <= i <= items@.len(),
            out@ == head + enc_oracle_row_seq(items@.take(i as int)),
        decreases items@.len() - i,
    {
        write_oracle_row(out, &items[i]);
        proof {
            lemma_oracle_row_take(items@, i as int);
            assert(out@ =~= head + enc_oracle_row_seq(items@.take(i + 1 as int)));
        }
        i = i + 1;
    }
    proof {
        assert(items@.take(items@.len() as int) =~= items@);
    }
}


/// One per-transaction row, as a counted list.
pub open spec fn enc_event_row(v: Vec<EventRecord>) -> Seq<u8> {
    enc_event_list(v@)
}

pub fn write_event_row(out: &mut Vec<u8>, v: &Vec<EventRecord>)
    ensures
        final(out)@ == old(out)@ + enc_event_row(*v),
{
    write_event_list(out, v);
}


/// The concatenated encodings of a sequence of per-transaction rows.
pub open spec fn enc_event_row_seq(s: Seq<Vec<EventRecord>>) -> Seq<u8>
    decreases s.len(),
{
    if s.len() == 0 {
        Seq::empty()
    } else {
        enc_event_row_seq(s.drop_last()) + enc_event_row(s.last())
    }
}

/// A counted list of per-transaction rows.
pub open spec fn enc_event_row_list(s: Seq<Vec<EventRecord>>) -> Seq<u8> {
    enc_u64(s.len() as u64) + enc_event_row_seq(s)
}


proof fn lemma_event_row_take(s: Seq<Vec<EventRecord>>, i: int)
    requires
        0 <= i < s.len(),
    ensures
        enc_event_row_seq(s.take(i + 1)) == enc_event_row_seq(s.take(i)) + enc_event_row(s[i]),
{
    let t = s.take(i + 1);
    assert(t.drop_last() =~= s.take(i));
    assert(t.last() == s[i]);
}


pub fn write_event_row_list(out: &mut Vec<u8>, items: &Vec<Vec<EventRecord>>)
    ensures
        final(out)@ == old(out)@ + enc_event_row_list(items@),
{
    write_u64(out, items.len() as u64);
    let ghost head = out@;
    proof {
        assert(out@ =~= head + enc_event_row_seq(items@.take(0)));
    }
    let mut i: usize = 0;
    while i < items.len()
        invariant
            0 <= i <= items@.len(),
            out@ == head + enc_event_row_seq(items@.take(i as int)),
        decreases items@.len() - i,
    {
        write_event_row(out, &items[i]);
        proof {
            lemma_event_row_take(items@, i as int);
            assert(out@ =~= head + enc_event_row_seq(items@.take(i + 1 as int)));
        }
        i = i + 1;
    }
    proof {
        assert(items@.take(items@.len() as int) =~= items@);
    }
}

} // verus!
