use chain_core::chain::check_difficulty;
use chain_core::{Block, BlockHeader, ChainError, ChainState, Storage, StorageError};

fn make_block(prev_hash: [u8; 32], height: u64, timestamp: u64, body: Vec<Vec<u8>>) -> Block {
    Block {
        header: BlockHeader {
            prev_hash,
            merkle_root: [0u8; 32],
            timestamp,
            nonce: 0,
            difficulty: 0,
            height,
        },
        body,
    }
}

fn genesis() -> Block {
    make_block([0u8; 32], 0, 1000, vec![b"genesis".to_vec()])
}

#[test]
fn concrete_scenario() {
    let mut chain = ChainState::new(Storage::new());
    assert_eq!(chain.get_head(), None);

    let b0 = genesis();
    let hash0 = b0.hash();
    assert_eq!(chain.insert_block(b0), Ok(()));
    assert_eq!(chain.get_head(), Some((hash0, 0)));

    let b1 = make_block(hash0, 1, 1001, vec![vec![1]]);
    let hash1 = b1.hash();
    assert_eq!(chain.insert_block(b1), Ok(()));
    assert_eq!(chain.get_head(), Some((hash1, 1)));

    let sibling = make_block(hash0, 1, 1002, vec![vec![2]]);
    assert!(!chain.validate_block(&sibling));
    assert_eq!(chain.insert_block(sibling), Err(ChainError::Validation));
    assert_eq!(chain.get_head(), Some((hash1, 1)));
}

#[test]
fn height_skip_is_rejected() {
    let mut chain = ChainState::new(Storage::new());
    let b0 = genesis();
    let hash0 = b0.hash();
    chain.insert_block(b0).unwrap();
    let skip = make_block(hash0, 2, 1001, vec![]);
    assert!(!chain.validate_block(&skip));
    assert_eq!(chain.insert_block(skip), Err(ChainError::Validation));
    assert_eq!(chain.get_head(), Some((hash0, 0)));
}

#[test]
fn genesis_gate() {
    let chain = ChainState::new(Storage::new());
    assert!(chain.validate_block(&genesis()));
    for height in [1u64, 2, 7, u64::MAX] {
        assert!(!chain.validate_block(&make_block([0u8; 32], height, 1000, vec![])));
    }
}

#[test]
fn linkage_checks_parent_and_height() {
    let mut chain = ChainState::new(Storage::new());
    let b0 = genesis();
    let hash0 = b0.hash();
    chain.insert_block(b0).unwrap();
    assert!(chain.validate_block(&make_block(hash0, 1, 1001, vec![])));
    let mut wrong_parent = hash0;
    wrong_parent[0] ^= 1;
    assert!(!chain.validate_block(&make_block(wrong_parent, 1, 1001, vec![])));
    assert!(!chain.validate_block(&make_block(hash0, 0, 1001, vec![])));
    assert!(!chain.validate_block(&make_block([0u8; 32], 1, 1001, vec![])));
}

#[test]
fn timestamp_must_grow() {
    let mut chain = ChainState::new(Storage::new());
    let b0 = genesis();
    let hash0 = b0.hash();
    chain.insert_block(b0).unwrap();
    assert!(!chain.validate_block(&make_block(hash0, 1, 1000, vec![])));
    assert!(!chain.validate_block(&make_block(hash0, 1, 999, vec![])));
    assert!(chain.validate_block(&make_block(hash0, 1, 1001, vec![])));
}

#[test]
fn difficulty_is_enforced() {
    let chain = ChainState::new(Storage::new());
    let mut b = genesis();
    b.header.difficulty = 256;
    assert!(!chain.validate_block(&b));
    b.header.difficulty = 300;
    assert!(!chain.validate_block(&b));
}

#[test]
fn difficulty_counts_leading_zero_bits() {
    let mut h = [0xffu8; 32];
    h[0] = 0x00;
    h[1] = 0x0f;
    assert!(check_difficulty(&h, 0));
    assert!(check_difficulty(&h, 12));
    assert!(!check_difficulty(&h, 13));
    let zero = [0u8; 32];
    assert!(check_difficulty(&zero, 256));
    assert!(!check_difficulty(&zero, 257));
}

#[test]
fn failed_write_keeps_head() {
    let b0 = genesis();
    let hash0 = b0.hash();
    let mut storage = Storage::new();
    let other = make_block([0u8; 32], 0, 1000, vec![b"other body".to_vec()]);
    assert_eq!(storage.put_block(&hash0, other), Ok(()));
    let mut chain = ChainState::new(storage);
    assert_eq!(chain.insert_block(b0), Err(ChainError::Storage(StorageError::Conflict)));
    assert_eq!(chain.get_head(), None);
}

#[test]
fn failed_write_keeps_head_after_genesis() {
    let b0 = genesis();
    let hash0 = b0.hash();
    let b1 = make_block(hash0, 1, 1001, vec![vec![1]]);
    let hash1 = b1.hash();
    let mut storage = Storage::new();
    storage.put_block(&hash1, make_block(hash0, 1, 1001, vec![vec![2]])).unwrap();
    let mut chain = ChainState::new(storage);
    chain.insert_block(b0).unwrap();
    assert_eq!(chain.insert_block(b1), Err(ChainError::Storage(StorageError::Conflict)));
    assert_eq!(chain.get_head(), Some((hash0, 0)));
}

#[test]
fn lookup_after_insert() {
    let mut chain = ChainState::new(Storage::new());
    let b0 = genesis();
    let hash0 = b0.hash();
    chain.insert_block(b0.duplicate()).unwrap();
    let found = chain.get_block(&hash0).unwrap().unwrap();
    assert!(found.same_content(&b0));
    assert_eq!(found.body, vec![b"genesis".to_vec()]);
    assert!(chain.get_block(&[9u8; 32]).unwrap().is_none());
}

#[test]
fn storage_put_is_idempotent() {
    let mut storage = Storage::new();
    let key = [3u8; 32];
    assert!(storage.get_block(&key).unwrap().is_none());
    assert_eq!(storage.put_block(&key, genesis()), Ok(()));
    assert_eq!(storage.put_block(&key, genesis()), Ok(()));
    let other = make_block([0u8; 32], 0, 1000, vec![]);
    assert_eq!(storage.put_block(&key, other), Err(StorageError::Conflict));
    assert!(storage.get_block(&key).unwrap().unwrap().same_content(&genesis()));
}

#[test]
fn storage_accessor_sees_inserted_blocks() {
    let mut chain = ChainState::new(Storage::new());
    let b0 = genesis();
    let hash0 = b0.hash();
    chain.insert_block(b0).unwrap();
    assert!(chain.storage().get_block(&hash0).unwrap().is_some());
}
