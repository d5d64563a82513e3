use hyperchain::authorities::AuthoritiesFile;
use hyperchain::backend::{BasicShardBackend, NoHooks};
use hyperchain::block::{Block, BlockBuilder};
use hyperchain::blockchain::BasicBlockchain;
use hyperchain::blocks_index::ChunkedBlocksIndex;
use hyperchain::keys::SecretKey;
use hyperchain::transaction::{Transaction, TransactionBody, TransactionBuilder};
use hyperchain::tx_index::TransactionsFile;

fn secret(tag: u8) -> SecretKey {
    let mut bytes = [0u8; 32];
    bytes[0] = tag;
    bytes[7] = 0x33;
    SecretKey::from_bytes(bytes)
}

fn raw_transaction(validator: &SecretKey, payload: &[u8]) -> Transaction {
    TransactionBuilder::new()
        .with_body(TransactionBody::Raw(payload.to_vec()))
        .sign(validator)
        .unwrap()
}

#[test]
fn authorities_file_index() {
    let authorities = [secret(1), secret(2), secret(3)];

    let mut index = AuthoritiesFile::new();

    assert_eq!(index.get_authorities().len(), 0);

    assert!(!index.delete_authority(&authorities[0].public_key()));
    assert!(!index.delete_authority(&authorities[1].public_key()));
    assert!(!index.delete_authority(&authorities[2].public_key()));

    assert!(!index.is_authority(&authorities[0].public_key()));
    assert!(!index.is_authority(&authorities[1].public_key()));
    assert!(!index.is_authority(&authorities[2].public_key()));

    assert!(index.insert_authority(authorities[0].public_key()));
    assert!(index.insert_authority(authorities[1].public_key()));
    assert!(!index.insert_authority(authorities[1].public_key()));

    let stored = index.get_authorities();
    assert_eq!(stored.len(), 2);
    assert!(stored.contains(&authorities[0].public_key()));
    assert!(stored.contains(&authorities[1].public_key()));

    assert!(index.is_authority(&authorities[0].public_key()));
    assert!(index.is_authority(&authorities[1].public_key()));
    assert!(!index.is_authority(&authorities[2].public_key()));

    assert!(index.delete_authority(&authorities[0].public_key()));
    assert!(index.delete_authority(&authorities[1].public_key()));
    assert!(!index.delete_authority(&authorities[2].public_key()));

    assert_eq!(index.get_authorities().len(), 0);

    assert!(!index.is_authority(&authorities[0].public_key()));
    assert!(!index.is_authority(&authorities[1].public_key()));
    assert!(!index.is_authority(&authorities[2].public_key()));
}

#[test]
fn authorities_text_roundtrip() {
    let mut index = AuthoritiesFile::new();
    index.insert_authority(secret(4).public_key());
    index.insert_authority(secret(5).public_key());
    let text = index.to_text();
    let lines: Vec<String> = text.lines().map(String::from).collect();
    let reread = AuthoritiesFile::from_lines(&lines);
    assert!(reread.is_authority(&secret(4).public_key()));
    assert!(reread.is_authority(&secret(5).public_key()));
    assert!(!reread.is_authority(&secret(6).public_key()));
}

#[test]
fn chunked_blocks_index() {
    let validator = secret(7);

    let block_a = BlockBuilder::build_root(&validator);
    let block_b = BlockBuilder::chained(&block_a).sign(&validator);
    let block_c = BlockBuilder::chained(&block_b).sign(&validator);
    let block_d = BlockBuilder::chained(&block_c).sign(&validator);

    let mut index = ChunkedBlocksIndex::open(2);

    assert!(index.get_block(0).is_none());
    assert!(index.get_block(1).is_none());
    assert!(index.get_block(2).is_none());

    assert!(index.get_head_block().is_none());
    assert!(index.get_tail_block().is_none());

    // Push A
    assert!(index.insert_block(block_a.clone()));

    assert_eq!(index.get_block(0), Some(block_a.clone()));
    assert!(index.get_block(1).is_none());
    assert!(index.get_block(2).is_none());

    assert_eq!(index.get_head_block(), Some(block_a.clone()));
    assert_eq!(index.get_tail_block(), Some(block_a.clone()));

    assert!(index.get_next_block(&block_a).is_none());

    // Push C
    assert!(index.insert_block(block_c.clone()));

    assert_eq!(index.get_block(0), Some(block_a.clone()));
    assert!(index.get_block(1).is_none());
    assert_eq!(index.get_block(2), Some(block_c.clone()));

    assert_eq!(index.get_head_block(), Some(block_a.clone()));
    assert_eq!(index.get_tail_block(), Some(block_a.clone()));

    // Push B
    assert!(index.insert_block(block_b.clone()));

    assert_eq!(index.get_block(0), Some(block_a.clone()));
    assert_eq!(index.get_block(1), Some(block_b.clone()));
    assert_eq!(index.get_block(2), Some(block_c.clone()));

    assert_eq!(index.get_head_block(), Some(block_a.clone()));
    assert_eq!(index.get_tail_block(), Some(block_c.clone()));

    // Push D
    assert!(index.insert_block(block_d.clone()));

    assert_eq!(index.get_block(0), Some(block_a.clone()));
    assert_eq!(index.get_block(1), Some(block_b.clone()));
    assert_eq!(index.get_block(2), Some(block_c.clone()));
    assert_eq!(index.get_block(3), Some(block_d.clone()));

    assert_eq!(index.get_head_block(), Some(block_a.clone()));
    assert_eq!(index.get_tail_block(), Some(block_d.clone()));

    assert_eq!(index.get_next_block(&block_a), Some(block_b.clone()));
    assert_eq!(index.get_next_block(&block_b), Some(block_c.clone()));
    assert_eq!(index.get_next_block(&block_c), Some(block_d.clone()));
    assert!(index.get_next_block(&block_d).is_none());
}

#[test]
fn insert_is_refused_once_stored() {
    let validator = secret(8);
    let block = BlockBuilder::build_root(&validator);
    let mut index = ChunkedBlocksIndex::open(2);
    assert!(index.insert_block(block.clone()));
    assert!(!index.insert_block(block.clone()));
    assert_eq!(index.get_block(0), Some(block));
}

#[test]
fn transactions_file_index() {
    let validator = secret(9);

    let transaction_a = raw_transaction(&validator, b"Hello, World! x1");
    let transaction_b = raw_transaction(&validator, b"Hello, World! x2");
    let transaction_c = raw_transaction(&validator, b"Hello, World! x3");

    let block_a = BlockBuilder::build_root(&validator);
    let block_b = BlockBuilder::chained(&block_a)
        .add_transaction(transaction_a.clone())
        .sign(&validator);
    let block_c = BlockBuilder::chained(&block_b).sign(&validator);
    let block_d = BlockBuilder::chained(&block_c)
        .add_transaction(transaction_b.clone())
        .add_transaction(transaction_c.clone())
        .sign(&validator);

    let mut blocks_index = ChunkedBlocksIndex::open(2);
    let mut transactions_index = TransactionsFile::open();

    assert!(!transactions_index.has_transaction(&blocks_index, &hyperchain::hash::Hash::min_value()));
    assert!(!transactions_index.has_transaction(&blocks_index, &hyperchain::hash::Hash::max_value()));

    assert!(!transactions_index.has_transaction(&blocks_index, &transaction_a.get_hash()));
    assert!(!transactions_index.has_transaction(&blocks_index, &transaction_b.get_hash()));
    assert!(!transactions_index.has_transaction(&blocks_index, &transaction_c.get_hash()));

    assert!(transactions_index
        .get_transaction(&blocks_index, &hyperchain::hash::Hash::min_value())
        .is_none());
    assert!(transactions_index
        .get_transaction(&blocks_index, &hyperchain::hash::Hash::max_value())
        .is_none());

    // Push A
    blocks_index.insert_block(block_a);

    assert!(!transactions_index.has_transaction(&blocks_index, &transaction_a.get_hash()));
    assert!(!transactions_index.has_transaction(&blocks_index, &transaction_b.get_hash()));
    assert!(!transactions_index.has_transaction(&blocks_index, &transaction_c.get_hash()));

    // Push B
    blocks_index.insert_block(block_b.clone());

    assert!(transactions_index.has_transaction(&blocks_index, &transaction_a.get_hash()));
    assert!(!transactions_index.has_transaction(&blocks_index, &transaction_b.get_hash()));
    assert!(!transactions_index.has_transaction(&blocks_index, &transaction_c.get_hash()));

    assert_eq!(
        transactions_index.get_transaction(&blocks_index, &transaction_a.get_hash()),
        Some((transaction_a.clone(), block_b.clone()))
    );

    // Push C
    blocks_index.insert_block(block_c);

    assert!(transactions_index.has_transaction(&blocks_index, &transaction_a.get_hash()));
    assert!(!transactions_index.has_transaction(&blocks_index, &transaction_b.get_hash()));
    assert!(!transactions_index.has_transaction(&blocks_index, &transaction_c.get_hash()));

    // Push D
    blocks_index.insert_block(block_d.clone());

    assert!(transactions_index.has_transaction(&blocks_index, &transaction_a.get_hash()));
    assert!(transactions_index.has_transaction(&blocks_index, &transaction_b.get_hash()));
    assert!(transactions_index.has_transaction(&blocks_index, &transaction_c.get_hash()));

    assert_eq!(
        transactions_index.get_transaction(&blocks_index, &transaction_a.get_hash()),
        Some((transaction_a.clone(), block_b.clone()))
    );
    assert_eq!(
        transactions_index.get_transaction(&blocks_index, &transaction_b.get_hash()),
        Some((transaction_b.clone(), block_d.clone()))
    );
    assert_eq!(
        transactions_index.get_transaction(&blocks_index, &transaction_c.get_hash()),
        Some((transaction_c.clone(), block_d.clone()))
    );
}

fn chain_of(validator: &SecretKey, len: usize) -> Vec<Block> {
    let mut blocks = vec![BlockBuilder::build_root(validator)];
    for _ in 1..len {
        let next = BlockBuilder::chained(blocks.last().unwrap()).sign(validator);
        blocks.push(next);
    }
    blocks
}

#[test]
fn chain_build_and_validate() {
    let validator = secret(10);
    let blocks = chain_of(&validator, 3);

    let mut authorities = AuthoritiesFile::new();
    authorities.insert_authority(validator.public_key());

    let mut blocks_index = ChunkedBlocksIndex::open(2);
    for b in &blocks {
        assert!(blocks_index.insert_block(b.clone()));
    }

    assert_eq!(blocks_index.get_head_block(), Some(blocks[0].clone()));
    assert_eq!(blocks_index.get_tail_block(), Some(blocks[2].clone()));

    let chain = BasicBlockchain::new(authorities, blocks_index, TransactionsFile::open());
    assert!(chain.validate().is_valid());
}

#[test]
fn reorder_preserves_head_and_tail() {
    let validator = secret(11);
    let blocks = chain_of(&validator, 4);

    let mut index = ChunkedBlocksIndex::open(2);

    assert!(index.insert_block(blocks[0].clone()));
    assert_eq!(index.get_head_block(), Some(blocks[0].clone()));
    assert_eq!(index.get_tail_block(), Some(blocks[0].clone()));

    assert!(index.insert_block(blocks[2].clone()));
    assert_eq!(index.get_head_block(), Some(blocks[0].clone()));
    assert_eq!(index.get_tail_block(), Some(blocks[0].clone()));

    assert!(index.insert_block(blocks[1].clone()));
    assert_eq!(index.get_head_block(), Some(blocks[0].clone()));
    assert_eq!(index.get_tail_block(), Some(blocks[2].clone()));

    assert!(index.insert_block(blocks[3].clone()));
    assert_eq!(index.get_head_block(), Some(blocks[0].clone()));
    assert_eq!(index.get_tail_block(), Some(blocks[3].clone()));
}

#[test]
fn stabilization_removes_from_pool() {
    let validator = secret(12);
    let transaction = raw_transaction(&validator, b"to stabilize");

    let mut authorities = AuthoritiesFile::new();
    authorities.insert_authority(validator.public_key());
    let chain = BasicBlockchain::new(
        authorities,
        ChunkedBlocksIndex::open(2),
        TransactionsFile::open(),
    );
    let mut backend = BasicShardBackend::new(chain, NoHooks);

    assert!(backend.handle_transaction(transaction.clone()));
    assert!(backend
        .get_staged_transaction(&transaction.get_hash())
        .is_some());

    let root = BlockBuilder::build_root(&validator);
    assert!(backend.handle_block(root.clone()));

    let stabilizer = BlockBuilder::chained(&root)
        .add_transaction(transaction.clone())
        .sign(&validator);
    assert!(backend.handle_block(stabilizer));

    assert!(backend
        .get_staged_transaction(&transaction.get_hash())
        .is_none());
    assert!(backend.get_transaction(&transaction.get_hash()).is_some());
}

#[test]
fn non_authority_block_is_rejected() {
    let validator = secret(13);
    let stranger = secret(14);

    let mut authorities = AuthoritiesFile::new();
    authorities.insert_authority(validator.public_key());
    let chain = BasicBlockchain::new(
        authorities,
        ChunkedBlocksIndex::open(2),
        TransactionsFile::open(),
    );
    let mut backend = BasicShardBackend::new(chain, NoHooks);

    let foreign = BlockBuilder::build_root(&stranger);
    assert!(!backend.handle_block(foreign));
    assert!(backend.get_block(0).is_none());
}

#[test]
fn staging_twice_is_refused() {
    let validator = secret(15);
    let transaction = raw_transaction(&validator, b"staged once");

    let chain = BasicBlockchain::new(
        AuthoritiesFile::new(),
        ChunkedBlocksIndex::open(2),
        TransactionsFile::open(),
    );
    let mut backend = BasicShardBackend::new(chain, NoHooks);

    assert!(backend.handle_transaction(transaction.clone()));
    assert!(!backend.handle_transaction(transaction));
}

#[test]
fn validate_reports_unknown_start() {
    let chain = BasicBlockchain::new(
        AuthoritiesFile::new(),
        ChunkedBlocksIndex::open(2),
        TransactionsFile::open(),
    );
    let report = chain.validate_since(5);
    assert!(matches!(
        report,
        hyperchain::blockchain::BlockchainValidationResult::UnknownBlockNumber(5)
    ));
}

#[test]
fn validate_rejects_missing_authority() {
    let validator = secret(16);
    let blocks = chain_of(&validator, 2);
    let mut blocks_index = ChunkedBlocksIndex::open(2);
    for b in &blocks {
        blocks_index.insert_block(b.clone());
    }
    let chain = BasicBlockchain::new(
        AuthoritiesFile::new(),
        blocks_index,
        TransactionsFile::open(),
    );
    assert!(matches!(
        chain.validate(),
        hyperchain::blockchain::BlockchainValidationResult::InvalidValidator { .. }
    ));
}

#[test]
fn transactions_log_roundtrip() {
    let validator = secret(30);
    let ta = raw_transaction(&validator, b"logged x1");
    let b0 = BlockBuilder::build_root(&validator);
    let b1 = BlockBuilder::chained(&b0)
        .add_transaction(ta.clone())
        .sign(&validator);

    let mut blocks_index = ChunkedBlocksIndex::open(2);
    blocks_index.insert_block(b0);
    blocks_index.insert_block(b1);

    let mut index = TransactionsFile::open();
    assert!(index.has_transaction(&blocks_index, &ta.get_hash()));

    let bytes = index.serialized();
    assert_eq!(&bytes[0..8], &[0, 0, 0, 0, 0, 0, 0, 26]);

    let reread = TransactionsFile::from_log_bytes(&bytes).expect("canonical log bytes");
    assert_eq!(reread.lookup_block(&ta.get_hash()), Some(1));
    assert_eq!(reread.serialized(), bytes);

    assert!(TransactionsFile::from_log_bytes(&vec![0u8; 5]).is_none());
}
