use blockchain::block::{Block, MINING_DIFFICULTY_PREFIX};

#[test]
fn test_block_mine() {
    let id = 1;
    let previous_hash = "0".to_string();
    let timestamp = 1630000000;
    let data = "Genesis Block".to_string();

    let (hash, _nonce) = Block::mine(id, previous_hash, timestamp, data).unwrap();

    assert!(hash.starts_with(MINING_DIFFICULTY_PREFIX));
}

#[test]
fn test_block_hash() {
    let id = 1;
    let previous_hash = "0".to_string();
    let timestamp = 1630000000;
    let data = "Genesis Block".to_string();
    let nonce = 0;

    let expected_hash = "998df7c06d4a6702d424685a79550ba796dbadcf7d61552e825e39aabc02c427";
    let actual_hash = Block::hash(id, previous_hash, timestamp, data, nonce);

    assert_eq!(expected_hash, actual_hash);
}

#[test]
fn hash_writes_negative_timestamp_with_sign() {
    let hash = Block::hash(7, "abc".to_string(), -42, "xyz".to_string(), 9);
    assert_eq!(hash, "d5302a6b057d27a6eb5e437800a42d570c3a301cf45f42d3958219cb5a8715d4");
}

#[test]
fn hash_is_deterministic() {
    let a = Block::hash(3, "prev".to_string(), 1700000000, "payload".to_string(), 42);
    let b = Block::hash(3, "prev".to_string(), 1700000000, "payload".to_string(), 42);
    assert_eq!(a, b);
    assert_eq!(a.len(), 64);
}

#[test]
fn hash_changes_with_each_field() {
    let base = Block::hash(3, "prev".to_string(), 1700000000, "payload".to_string(), 42);
    assert_ne!(base, Block::hash(4, "prev".to_string(), 1700000000, "payload".to_string(), 42));
    assert_ne!(base, Block::hash(3, "prex".to_string(), 1700000000, "payload".to_string(), 42));
    assert_ne!(base, Block::hash(3, "prev".to_string(), 1700000001, "payload".to_string(), 42));
    assert_ne!(base, Block::hash(3, "prev".to_string(), 1700000000, "payloae".to_string(), 42));
    assert_ne!(base, Block::hash(3, "prev".to_string(), 1700000000, "payload".to_string(), 43));
}

#[test]
fn mining_finds_first_solving_nonce() {
    let previous_hash = "0".to_string();
    let data = "Genesis Block".to_string();
    let (hash, nonce) = Block::mine_with_prefix(1, &previous_hash, 1630000000, &data, "0").unwrap();
    assert_eq!(nonce, 6);
    assert_eq!(hash, "0b94f484a261e3dacaf54bd95fc90c4c30fd7d5ba921968526cc84bc67ebc5a8");
    assert_eq!(hash, Block::hash(1, previous_hash, 1630000000, data, nonce));
}

#[test]
fn mining_with_empty_prefix_takes_nonce_zero() {
    let previous_hash = "p".to_string();
    let data = "d".to_string();
    let (hash, nonce) = Block::mine_with_prefix(2, &previous_hash, 5, &data, "").unwrap();
    assert_eq!(nonce, 0);
    assert_eq!(hash, Block::hash(2, previous_hash, 5, data, 0));
}

#[test]
fn mined_block_carries_its_fields() {
    let block = Block::mined(1, "0".to_string(), 1630000000, "Genesis Block".to_string(), "0")
        .unwrap();
    assert_eq!(block.id, 1);
    assert_eq!(block.previous_hash, "0");
    assert_eq!(block.timestamp, 1630000000);
    assert_eq!(block.data, "Genesis Block");
    assert_eq!(block.nonce, 6);
    assert_eq!(block.hash, "0b94f484a261e3dacaf54bd95fc90c4c30fd7d5ba921968526cc84bc67ebc5a8");
}

#[test]
fn has_prefix_compares_leading_characters() {
    assert!(blockchain::block::has_prefix("000abc", "000"));
    assert!(blockchain::block::has_prefix("abc", ""));
    assert!(!blockchain::block::has_prefix("00", "000"));
    assert!(!blockchain::block::has_prefix("010", "00"));
}
