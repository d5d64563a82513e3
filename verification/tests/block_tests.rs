use hyperchain::block::{Block, BlockBuilder, BlockMinter};
use hyperchain::encoding::MessageEncoding;
use hyperchain::keys::SecretKey;
use hyperchain::transaction::{Transaction, TransactionBody, TransactionBuilder};

fn secret(tag: u8) -> SecretKey {
    let mut bytes = [0u8; 32];
    bytes[0] = tag;
    bytes[15] = 0x5a;
    SecretKey::from_bytes(bytes)
}

fn sample_transaction(tag: u8) -> Transaction {
    let s = secret(tag);
    TransactionBuilder::new()
        .with_body(TransactionBody::Announcement {
            from: s.public_key(),
            format: MessageEncoding::Base64,
            content: String::from("SGVsbG8sIFdvcmxkIQ=="),
        })
        .sign(&s)
        .unwrap()
}

fn get_minter() -> (BlockMinter, SecretKey) {
    let s = secret(20);
    (BlockMinter::new(s.public_key(), hyperchain::hash::Hash::max_value()), s)
}

fn get_root() -> (Block, SecretKey) {
    let s = secret(21);
    let block = BlockBuilder::build_root(&s);
    (block, s)
}

fn get_chained() -> (Block, Block, SecretKey) {
    let (root, s) = get_root();
    let block = BlockBuilder::chained(&root)
        .add_transaction(sample_transaction(22))
        .add_transaction(sample_transaction(23))
        .add_minter(get_minter().0)
        .sign(&s);
    (root, block, s)
}

#[test]
fn builder_validate() {
    let (root, chained, s) = get_chained();

    assert_eq!(*root.validator(), s.public_key());
    assert_eq!(*chained.validator(), s.public_key());

    let prev = chained.previous_block().unwrap();
    assert_eq!(prev, root.get_hash());

    assert!(root.validate().unwrap().is_valid());
    assert!(chained.validate().unwrap().is_valid());
}

#[test]
fn mod_serialize() {
    let block = get_chained().1;
    assert_eq!(Block::from_json(&block.to_json()).unwrap(), block);
}

#[test]
fn minter_serialize() {
    let minter = get_minter().0;
    assert_eq!(BlockMinter::from_json(&minter.to_json()).unwrap(), minter);
}

#[test]
fn root_has_no_previous() {
    let (root, _) = get_root();
    assert!(root.is_root());
    assert!(root.previous_block().is_none());
    assert_eq!(root.number(), 0);
}

#[test]
fn chained_numbers_follow() {
    let (root, chained, _) = get_chained();
    assert_eq!(root.number(), 0);
    assert_eq!(chained.number(), 1);
}
