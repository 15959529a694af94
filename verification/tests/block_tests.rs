use chain_crypto::block::{
    Block, ChainError, ConfirmedBlock, Timeout, ValidatedBlock,
};
use chain_crypto::data_types::{
    AccountOwner, Blob, BlobId, BlobType, BlockExecutionOutcome, BlockHeight, BytecodeId,
    ChainId, ChannelName, Destination, Epoch, EventRecord, IncomingBundle, Medium, Message,
    MessageAction, MessageBundle, MessageKind, OpenChainConfig, Operation, OracleResponse,
    Origin, OutgoingMessage, PostedMessage, SystemMessage, SystemOperation, Timestamp,
    Transaction,
};
use chain_crypto::hashing::{CryptoHash, TestString};
use chain_crypto::signing::{Secp256k1KeyPair, Secp256k1Signature};

fn hash_of_str(s: &str) -> CryptoHash {
    CryptoHash::new(&TestString(s.to_string()))
}

fn chain(s: &str) -> ChainId {
    ChainId(hash_of_str(s))
}

fn outgoing(dest: Destination, tag: u64) -> OutgoingMessage {
    OutgoingMessage {
        destination: dest,
        authenticated_signer: None,
        grant: tag,
        refund_grant_to: None,
        kind: MessageKind::Simple,
        message: Message::User(vec![tag as u8]),
    }
}

fn posted(index: u32, tag: u64) -> PostedMessage {
    PostedMessage {
        authenticated_signer: None,
        grant: tag,
        refund_grant_to: None,
        kind: MessageKind::Simple,
        index,
        message: Message::User(vec![tag as u8]),
    }
}

fn incoming(action: MessageAction, msgs: Vec<PostedMessage>) -> IncomingBundle {
    IncomingBundle {
        origin: Origin {
            sender: chain("sender"),
            medium: Medium::Direct,
        },
        bundle: MessageBundle {
            height: BlockHeight(3),
            timestamp: Timestamp(44),
            certificate_hash: hash_of_str("cert"),
            transaction_index: 0,
            messages: msgs,
        },
        action,
    }
}

/// One incoming bundle and two operations; message rows: one message for
/// the bundle transaction, two for the first operation, one for the
/// second.
fn make_block() -> Block {
    let me = chain("me");
    let peer = chain("peer");
    let bundles = vec![incoming(MessageAction::Accept, vec![posted(0, 7)])];
    let operations = vec![
        Operation::System(SystemOperation::PublishDataBlob {
            blob_hash: hash_of_str("blob"),
        }),
        Operation::User(vec![1, 2, 3]),
    ];
    let outcome = BlockExecutionOutcome {
        state_hash: hash_of_str("state"),
        messages: vec![
            vec![outgoing(Destination::Recipient(peer), 10)],
            vec![
                outgoing(Destination::Recipient(peer), 20),
                outgoing(
                    Destination::Subscribers(ChannelName(b"news".to_vec())),
                    21,
                ),
            ],
            vec![outgoing(Destination::Recipient(peer), 30)],
        ],
        oracle_responses: vec![
            vec![],
            vec![OracleResponse::Blob(BlobId::new(
                hash_of_str("oracle-blob"),
                BlobType::Data,
            ))],
            vec![OracleResponse::Assert],
        ],
        events: vec![
            vec![],
            vec![],
            vec![EventRecord {
                stream_id: b"s".to_vec(),
                key: b"k".to_vec(),
                value: b"v".to_vec(),
            }],
        ],
    };
    Block::new(
        me,
        Epoch(4),
        BlockHeight(8),
        Timestamp(99),
        Some(hash_of_str("prev")),
        None,
        bundles,
        operations,
        outcome,
    )
}

#[test]
fn commitment_rebuild_matches() {
    // Two blocks built from equal inputs have byte-identical headers.
    let a = make_block();
    let b = make_block();
    assert!(a.header.bundles_hash == b.header.bundles_hash);
    assert!(a.header.operations_hash == b.header.operations_hash);
    assert!(a.header.messages_hash == b.header.messages_hash);
    assert!(a.header.oracle_responses_hash == b.header.oracle_responses_hash);
    assert!(a.header.events_hash == b.header.events_hash);
    assert!(a.header.state_hash == b.header.state_hash);
}

#[test]
fn commitment_isolates_sections() {
    let a = make_block();
    // Mutate one element of the operations section and rebuild.
    let b = make_block();
    let mut ops = b.body.operations;
    ops.pop();
    ops.push(Operation::User(vec![9, 9, 9]));
    let rebuilt = Block::new(
        b.header.chain_id,
        b.header.epoch,
        b.header.height,
        b.header.timestamp,
        b.header.previous_block_hash,
        b.header.authenticated_signer,
        b.body.incoming_bundles,
        ops,
        BlockExecutionOutcome {
            state_hash: b.header.state_hash,
            messages: b.body.messages,
            oracle_responses: b.body.oracle_responses,
            events: b.body.events,
        },
    );
    // Only the operations hash moved.
    assert!(rebuilt.header.operations_hash != a.header.operations_hash);
    assert!(rebuilt.header.bundles_hash == a.header.bundles_hash);
    assert!(rebuilt.header.messages_hash == a.header.messages_hash);
    assert!(rebuilt.header.oracle_responses_hash == a.header.oracle_responses_hash);
    assert!(rebuilt.header.events_hash == a.header.events_hash);
}

#[test]
fn index_round_trip() {
    let block = make_block();
    // Operation 0, message 1 sits at flat index 1 (bundle row) + 1.
    let id = block.message_id_for_operation(0, 1).unwrap();
    assert_eq!(id.index, 2);
    let msg = block.message_by_id(&id).unwrap();
    assert_eq!(msg.grant, 21);
    // Operation 1, message 0 sits at flat index 3.
    let id2 = block.message_id_for_operation(1, 0).unwrap();
    assert_eq!(id2.index, 3);
    assert_eq!(block.message_by_id(&id2).unwrap().grant, 30);
    // Out of range on both ends.
    assert!(block.message_id_for_operation(2, 0).is_none());
    assert!(block.message_id_for_operation(0, 2).is_none());
    let mut stray = id;
    stray.index = 40;
    assert!(block.message_by_id(&stray).is_none());
    let mut wrong_chain = id;
    wrong_chain.chain_id = chain("elsewhere");
    assert!(block.message_by_id(&wrong_chain).is_none());
}

#[test]
fn bundles_for_recipient() {
    let block = make_block();
    let peer = chain("peer");
    let cert = hash_of_str("cert2");
    let bundles = block.message_bundles_for(&Medium::Direct, peer, cert);
    // Transactions 0, 1 and 2 each send one direct message to peer.
    assert_eq!(bundles.len(), 3);
    assert!(bundles[0].0 == Epoch(4));
    assert_eq!(bundles[0].1.transaction_index, 0);
    assert_eq!(bundles[1].1.transaction_index, 1);
    assert_eq!(bundles[2].1.transaction_index, 2);
    assert!(bundles[1].1.certificate_hash == cert);
    assert!(bundles[1].1.height == BlockHeight(8));
    assert_eq!(bundles[1].1.messages.len(), 1);
    assert_eq!(bundles[1].1.messages[0].index, 1);
    assert_eq!(bundles[1].1.messages[0].grant, 20);
    assert_eq!(bundles[2].1.messages[0].index, 3);

    // The channel medium selects only the subscribed message.
    let news = Medium::Channel(ChannelName(b"news".to_vec()));
    let channel_bundles = block.message_bundles_for(&news, chain("anyone"), cert);
    assert_eq!(channel_bundles.len(), 1);
    assert_eq!(channel_bundles[0].1.transaction_index, 1);
    assert_eq!(channel_bundles[0].1.messages[0].grant, 21);
    assert_eq!(channel_bundles[0].1.messages[0].index, 2);

    // A stranger gets nothing.
    let none = block.message_bundles_for(&Medium::Direct, chain("stranger"), cert);
    assert_eq!(none.len(), 0);
}

#[test]
fn blob_dependency_set() {
    let block = make_block();
    let oracle_id = BlobId::new(hash_of_str("oracle-blob"), BlobType::Data);
    let published_id = BlobId::new(hash_of_str("blob"), BlobType::Data);
    let other = BlobId::new(hash_of_str("other"), BlobType::Data);

    let oracle_ids = block.body.oracle_blob_ids();
    assert_eq!(oracle_ids.len(), 1);
    assert!(oracle_ids[0] == oracle_id);

    let published = block.published_blob_ids();
    assert_eq!(published.len(), 1);
    assert!(published[0] == published_id);

    let required = block.required_blob_ids();
    assert_eq!(required.len(), 2);
    assert!(block.requires_blob(&oracle_id));
    assert!(block.requires_blob(&published_id));
    assert!(!block.requires_blob(&other));
    assert!(block.body.has_oracle_responses());
}

#[test]
fn bytecode_publication_requires_both_blobs() {
    let me = chain("me");
    let ops = vec![Operation::System(SystemOperation::PublishBytecode {
        bytecode_id: BytecodeId {
            contract_blob_hash: hash_of_str("contract"),
            service_blob_hash: hash_of_str("service"),
        },
    })];
    let outcome = BlockExecutionOutcome {
        state_hash: hash_of_str("state"),
        messages: vec![vec![]],
        oracle_responses: vec![vec![]],
        events: vec![vec![]],
    };
    let block = Block::new(
        me,
        Epoch(0),
        BlockHeight(0),
        Timestamp(0),
        None,
        None,
        vec![],
        ops,
        outcome,
    );
    assert!(block.requires_blob(&BlobId::new(
        hash_of_str("contract"),
        BlobType::ContractBytecode
    )));
    assert!(block.requires_blob(&BlobId::new(
        hash_of_str("service"),
        BlobType::ServiceBytecode
    )));
    assert!(!block.requires_blob(&BlobId::new(hash_of_str("contract"), BlobType::Data)));
}

#[test]
fn rejected_messages_only() {
    let me = chain("me");
    let bundles = vec![incoming(MessageAction::Reject, vec![posted(0, 1)])];
    let outcome = BlockExecutionOutcome {
        state_hash: hash_of_str("state"),
        messages: vec![vec![]],
        oracle_responses: vec![vec![]],
        events: vec![vec![]],
    };
    let block = Block::new(
        me,
        Epoch(0),
        BlockHeight(1),
        Timestamp(1),
        None,
        None,
        bundles,
        vec![],
        outcome,
    );
    assert!(block.has_only_rejected_messages());
    assert!(!make_block().has_only_rejected_messages());
}

#[test]
fn incoming_message_accounting() {
    let block = make_block();
    assert_eq!(block.message_count(), 1);
    let incoming_msgs = block.incoming_messages();
    assert_eq!(incoming_msgs.len(), 1);
    assert_eq!(incoming_msgs[0].grant, 7);
    assert_eq!(block.messages().len(), 3);
}

#[test]
fn transactions_in_order() {
    let block = make_block();
    let txs = block.transactions();
    assert_eq!(txs.len(), 3);
    assert_eq!(txs[0].0, 0);
    assert!(matches!(txs[0].1, Transaction::ReceiveMessages(_)));
    assert_eq!(txs[1].0, 1);
    assert!(matches!(txs[1].1, Transaction::ExecuteOperation(_)));
    assert_eq!(txs[2].0, 2);
}

#[test]
fn open_chain_detection() {
    let me = chain("me");
    let config = OpenChainConfig {
        admin_id: chain("admin"),
        epoch: Epoch(1),
        balance: 5,
    };
    let open_msg = PostedMessage {
        authenticated_signer: None,
        grant: 0,
        refund_grant_to: None,
        kind: MessageKind::Protected,
        index: 0,
        message: Message::System(SystemMessage::OpenChain(config)),
    };
    let bundles = vec![incoming(MessageAction::Accept, vec![open_msg])];
    let outcome = BlockExecutionOutcome {
        state_hash: hash_of_str("state"),
        messages: vec![vec![]],
        oracle_responses: vec![vec![]],
        events: vec![vec![]],
    };
    let block = Block::new(
        me,
        Epoch(1),
        BlockHeight(0),
        Timestamp(0),
        None,
        None,
        bundles,
        vec![],
        outcome,
    );
    let (bundle, msg, cfg) = block.starts_with_open_chain_message().unwrap();
    assert!(matches!(bundle.action, MessageAction::Accept));
    assert_eq!(msg.index, 0);
    assert!(cfg.balance == 5 && cfg.epoch == Epoch(1));
    // A rejected or ordinary first message is no chain opening.
    assert!(make_block().starts_with_open_chain_message().is_none());
}

#[test]
fn proposal_size_limit() {
    let block = make_block();
    let blobs = vec![Blob {
        blob_type: BlobType::Data,
        bytes: vec![1, 2, 3, 4],
    }];
    assert!(block.check_proposal_size(1_000_000, &blobs).is_ok());
    assert!(matches!(
        block.check_proposal_size(10, &blobs),
        Err(ChainError::BlockProposalTooLarge)
    ));
}

#[test]
fn certificate_domain_separation() {
    // The same block wrapped as validated and as confirmed hashes
    // differently, and a signature over one fails against the other.
    let vb = ValidatedBlock::new(make_block());
    let cb = ConfirmedBlock::new(make_block());
    let hv = CryptoHash::new(&vb);
    let hc = CryptoHash::new(&cb);
    assert!(hv != hc);

    let kp = Secp256k1KeyPair::generate();
    let sig = Secp256k1Signature::new(&vb, &kp.secret_key);
    assert!(sig.check(&vb, &kp.public_key).is_ok());
    assert!(sig.check(&cb, &kp.public_key).is_err());
}

#[test]
fn certificate_accessors() {
    let vb = ValidatedBlock::new(make_block());
    assert!(vb.chain_id() == chain("me"));
    assert!(vb.height() == BlockHeight(8));
    assert!(vb.epoch() == Epoch(4));
    assert_eq!(vb.to_log_str(), "validated_block");
    let hashed = chain_crypto::hashing::Hashed::new(make_block());
    let h = hashed.hash();
    let vb2 = ValidatedBlock::from_hashed(hashed);
    assert!(vb2.inner().hash() == h);
    let block = vb.into_inner();
    assert!(block.header.height == BlockHeight(8));

    let cb = ConfirmedBlock::new(make_block());
    assert!(cb.chain_id() == chain("me"));
    assert!(cb.height() == BlockHeight(8));
    assert_eq!(cb.to_log_str(), "confirmed_block");
    assert!(cb.executed_block().header.epoch == Epoch(4));
}

#[test]
fn confirmed_block_hash_checked() {
    let cb = ConfirmedBlock::new(make_block());
    let good = CryptoHash::new(&cb);
    let hashed = cb.with_hash_checked(good).unwrap();
    assert!(hashed.hash() == good);

    let cb2 = ConfirmedBlock::new(make_block());
    let bad = hash_of_str("not the hash");
    match cb2.with_hash_checked(bad) {
        Err(ChainError::CertificateValueHashMismatch { expected, actual }) => {
            assert!(expected == bad);
            assert!(actual == good);
        }
        other => panic!("expected a hash mismatch, got {:?}", other),
    }

    let cb3 = ConfirmedBlock::new(make_block());
    let unchecked = cb3.with_hash_unchecked(bad);
    assert!(unchecked.hash() == bad);
}

#[test]
fn timeout_values() {
    let t = Timeout::new(chain("me"), BlockHeight(9), Epoch(2));
    assert!(t.chain_id() == chain("me"));
    assert!(t.height() == BlockHeight(9));
    assert!(t.epoch() == Epoch(2));
    assert_eq!(t.to_log_str(), "timeout");
    let t2 = Timeout::new(chain("me"), BlockHeight(9), Epoch(2));
    assert!(CryptoHash::new(&t) == CryptoHash::new(&t2));
    let t3 = Timeout::new(chain("me"), BlockHeight(10), Epoch(2));
    assert!(CryptoHash::new(&t) != CryptoHash::new(&t3));
}

#[test]
fn outcome_projection() {
    let block = make_block();
    let state = block.header.state_hash;
    let outcome = BlockExecutionOutcome::from(block);
    assert!(outcome.state_hash == state);
    assert_eq!(outcome.messages.len(), 3);
    assert_eq!(outcome.oracle_responses.len(), 3);
    assert_eq!(outcome.events.len(), 3);
}

#[test]
fn message_id_fields() {
    let block = make_block();
    let id = block.header.message_id(5);
    assert!(id.chain_id == chain("me"));
    assert!(id.height == BlockHeight(8));
    assert_eq!(id.index, 5);
    let owner = AccountOwner::from_public_key(&Secp256k1KeyPair::generate().public_key);
    assert!(owner == owner);
}
