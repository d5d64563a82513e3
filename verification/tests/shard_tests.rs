use hyperchain::authorities::AuthoritiesFile;
use hyperchain::backend::{BasicShardBackend, NoHooks};
use hyperchain::block::BlockBuilder;
use hyperchain::blockchain::BasicBlockchain;
use hyperchain::blocks_index::ChunkedBlocksIndex;
use hyperchain::keys::SecretKey;
use hyperchain::message::{ShardMember, ShardMessage, ShardUpdate};
use hyperchain::shard::{Shard, ShardAction, ShardOptions};
use hyperchain::tx_index::TransactionsFile;

fn secret(tag: u8) -> SecretKey {
    let mut bytes = [0u8; 32];
    bytes[0] = tag;
    bytes[11] = 0x77;
    SecretKey::from_bytes(bytes)
}

fn member(tag: u8) -> ShardMember {
    ShardMember {
        client_public: secret(tag).public_key(),
        server_address: String::from("Hello, World!"),
    }
}

fn fresh_shard(validator: &SecretKey) -> Shard<NoHooks> {
    let mut authorities = AuthoritiesFile::new();
    authorities.insert_authority(validator.public_key());
    let chain = BasicBlockchain::new(
        authorities,
        ChunkedBlocksIndex::open(2),
        TransactionsFile::open(),
    );
    Shard::new(String::from("testnet"), BasicShardBackend::new(chain, NoHooks))
}

#[test]
fn member_serialize() {
    let m = member(1);
    assert_eq!(ShardMember::from_json(&m.to_json()).unwrap(), m);
}

#[test]
fn serialize_message() {
    assert_eq!(
        ShardMessage::from_json(&ShardMessage::Subscribe.to_json()).unwrap(),
        ShardMessage::Subscribe
    );
    assert_eq!(
        ShardMessage::from_json(&ShardMessage::Unsubscribe.to_json()).unwrap(),
        ShardMessage::Unsubscribe
    );
}

#[test]
fn serialize_update() {
    let validator = secret(2);
    let root = BlockBuilder::build_root(&validator);
    let tail = BlockBuilder::chained(&root).sign(&validator);

    let updates = vec![
        ShardUpdate::Status {
            head_block: None,
            tail_block: None,
            staged_transactions: vec![],
        },
        ShardUpdate::Status {
            head_block: Some(root.clone()),
            tail_block: Some(tail.clone()),
            staged_transactions: vec![root.get_hash(), tail.get_hash()],
        },
        ShardUpdate::AnnounceMembers {
            members: vec![member(3), member(4)],
        },
        ShardUpdate::AnnounceBlocks {
            blocks: vec![root, tail],
        },
    ];

    for update in updates {
        let message = ShardMessage::Update(update);
        assert_eq!(ShardMessage::from_json(&message.to_json()).unwrap(), message);
    }
}

#[test]
fn loop_suppression() {
    let validator = secret(5);
    let mut shard = fresh_shard(&validator);
    let peer = member(6);
    let now: u64 = 1_700_000_000;

    assert!(shard.handle_subscribe(peer.clone(), now));

    let block = BlockBuilder::build_root(&validator);
    let actions = shard.handle_message(
        &peer,
        ShardMessage::Update(ShardUpdate::AnnounceBlocks {
            blocks: vec![block.clone()],
        }),
        block.created_at(),
    );

    for action in &actions {
        if let ShardAction::SendOrDrop { member: target, .. } = action {
            assert!(*target != peer);
        }
    }
    assert!(shard.backend.get_block(0).is_some());
}

#[test]
fn admission_cap_holds() {
    let validator = secret(7);
    let mut shard = fresh_shard(&validator);
    let mut options = ShardOptions::default();
    options.max_subscribers = 1;
    shard.with_options(options);
    let now: u64 = 1_700_000_000;

    assert!(shard.handle_subscribe(member(8), now));
    assert!(!shard.handle_subscribe(member(9), now));
    assert!(shard.subscribers.len() <= 1);

    let _ = shard.tick(now);
    assert!(shard.subscribers.len() <= 1);
    assert!(shard.subscriptions.len() <= shard.options.max_subscriptions);
}

#[test]
fn refused_subscriber_learns_members() {
    let validator = secret(10);
    let mut shard = fresh_shard(&validator);
    let mut options = ShardOptions::default();
    options.max_subscribers = 0;
    options.announce_members_on_failed_subscription = true;
    shard.with_options(options);
    let now: u64 = 1_700_000_000;

    let peer = member(11);
    let actions = shard.handle_message(&peer, ShardMessage::Subscribe, now);

    assert_eq!(actions.len(), 1);
    match &actions[0] {
        ShardAction::Send { member: target, message } => {
            assert!(*target == peer);
            assert!(matches!(
                message,
                ShardMessage::Update(ShardUpdate::AnnounceMembers { .. })
            ));
        },
        _ => panic!("expected a tolerated send"),
    }
    assert_eq!(shard.subscribers.len(), 0);
}

#[test]
fn gossip_reaches_second_shard() {
    let validator = secret(12);
    let mut p = fresh_shard(&validator);
    let mut q = fresh_shard(&validator);
    let p_member = member(13);
    let q_member = member(14);
    let now: u64 = 1_700_000_000;

    // P subscribes to Q and Q subscribes to P.
    assert!(q.handle_subscribe(p_member.clone(), now));
    p.commit_subscribe(q_member.clone(), now);
    q.commit_subscribe(p_member.clone(), now);

    // P announces a block; the resulting sends are delivered to Q.
    let block = BlockBuilder::build_root(&validator);
    let actions = p.announce_block(block.clone());
    let mut delivered = 0;
    for action in actions {
        if let ShardAction::SendOrDrop { member: target, message } = action {
            if target == q_member {
                let _ = q.handle_message(&p_member, message, block.created_at());
                delivered += 1;
            }
        }
    }
    assert!(delivered >= 1);
    assert_eq!(q.backend.get_tail_block(), Some(block));
}

#[test]
fn unsubscribe_forgets_peer() {
    let validator = secret(15);
    let mut shard = fresh_shard(&validator);
    let peer = member(16);
    let now: u64 = 1_700_000_000;

    assert!(shard.handle_subscribe(peer.clone(), now));
    assert_eq!(shard.subscribers.len(), 1);

    let actions = shard.handle_message(&peer, ShardMessage::Unsubscribe, now);
    assert!(actions.is_empty());
    assert_eq!(shard.subscribers.len(), 0);
}

#[test]
fn shrink_evicts_lowest_tails() {
    let validator = secret(17);
    let mut shard = fresh_shard(&validator);
    let now: u64 = 1_700_000_000;
    assert!(shard.handle_subscribe(member(18), now));
    assert!(shard.handle_subscribe(member(19), now));
    assert!(shard.handle_subscribe(member(20), now));
    let evicted = shard.shrink_subscribers(1);
    assert_eq!(evicted.len(), 2);
    assert_eq!(shard.subscribers.len(), 1);
}
