use chain_explorer::db::{ContractRecord, IndexStore, StorageError, StoredEntry};
use chain_explorer::types::{Address, H256};

fn addr(n: u8) -> Address {
    Address([n; 20])
}

fn hash(n: u8) -> H256 {
    H256([n; 32])
}

#[test]
fn cursor_starts_at_zero_or_genesis() {
    assert_eq!(IndexStore::new().get_cursor(), 0);
    assert_eq!(IndexStore::with_genesis(4_000_000).get_cursor(), 4_000_000);
}

#[test]
fn cursor_moves_forward_only() {
    let mut store = IndexStore::new();
    assert_eq!(store.advance_cursor(1), Ok(()));
    assert_eq!(store.advance_cursor(7), Ok(()));
    assert_eq!(store.get_cursor(), 7);
    assert_eq!(
        store.advance_cursor(7),
        Err(StorageError::CursorRegression { current: 7, requested: 7 })
    );
    assert_eq!(
        store.advance_cursor(3),
        Err(StorageError::CursorRegression { current: 7, requested: 3 })
    );
    assert_eq!(store.get_cursor(), 7);
    assert_eq!(store.advance_cursor(8), Ok(()));
    assert_eq!(store.get_cursor(), 8);
}

#[test]
fn refused_cursor_move_leaves_store_unchanged() {
    let mut store = IndexStore::with_genesis(10);
    store.record_address_activity(addr(1), hash(1));
    store.record_non_empty_block(9);
    assert!(store.advance_cursor(10).is_err());
    assert!(store.advance_cursor(0).is_err());
    assert_eq!(store.get_cursor(), 10);
    assert_eq!(store.iter_address_activity(&addr(1)), vec![hash(1)]);
    assert_eq!(store.iter_non_empty_blocks(), vec![9]);
}

#[test]
fn address_history_growth() {
    let mut store = IndexStore::new();
    assert!(store.record_address_activity(addr(1), hash(1)));
    assert!(store.record_address_activity(addr(1), hash(2)));
    assert!(store.record_address_activity(addr(1), hash(3)));
    assert!(!store.record_address_activity(addr(1), hash(1)));
    assert_eq!(
        store.iter_address_activity(&addr(1)),
        vec![hash(1), hash(2), hash(3)]
    );
}

#[test]
fn histories_are_kept_apart_by_address() {
    let mut store = IndexStore::new();
    store.record_address_activity(addr(1), hash(1));
    store.record_address_activity(addr(2), hash(1));
    store.record_address_activity(addr(2), hash(5));
    store.record_address_activity(addr(1), hash(4));
    assert_eq!(store.iter_address_activity(&addr(1)), vec![hash(1), hash(4)]);
    assert_eq!(store.iter_address_activity(&addr(2)), vec![hash(1), hash(5)]);
    assert_eq!(store.iter_address_activity(&addr(3)), Vec::<H256>::new());
}

#[test]
fn history_iteration_restarts_from_the_beginning() {
    let mut store = IndexStore::new();
    store.record_address_activity(addr(1), hash(1));
    store.record_address_activity(addr(1), hash(2));
    let first = store.iter_address_activity(&addr(1));
    let second = store.iter_address_activity(&addr(1));
    assert_eq!(first, second);
}

#[test]
fn non_empty_blocks_are_a_sorted_set() {
    let mut store = IndexStore::new();
    assert!(store.record_non_empty_block(5));
    assert!(store.record_non_empty_block(9));
    assert!(!store.record_non_empty_block(5));
    assert!(store.record_non_empty_block(2));
    assert!(store.record_non_empty_block(7));
    assert!(!store.record_non_empty_block(9));
    assert_eq!(store.count_non_empty_blocks(), 4);
    assert_eq!(store.iter_non_empty_blocks(), vec![2, 5, 7, 9]);
}

#[test]
fn non_empty_blocks_skip_and_take() {
    let mut store = IndexStore::new();
    for n in 1..=37u64 {
        store.record_non_empty_block(n * 10);
    }
    assert_eq!(store.count_non_empty_blocks(), 37);
    let page: Vec<u64> = (16..=30u64).map(|n| n * 10).collect();
    assert_eq!(store.non_empty_blocks_page(15, 15), page);
    let last: Vec<u64> = (31..=37u64).map(|n| n * 10).collect();
    assert_eq!(store.non_empty_blocks_page(30, 15), last);
    assert_eq!(store.non_empty_blocks_page(37, 15), Vec::<u64>::new());
    assert_eq!(store.non_empty_blocks_page(100, 15), Vec::<u64>::new());
    assert_eq!(store.non_empty_blocks_page(0, usize::MAX).len(), 37);
}

fn record(name: &str, abi: &str) -> ContractRecord {
    ContractRecord {
        source: format!("contract {} {{}}", name),
        compiler: "solc-0.5.1".to_string(),
        optimized: true,
        name: name.to_string(),
        abi: abi.to_string(),
        constructor: Vec::new(),
    }
}

#[test]
fn contracts_are_overwritten_by_the_last_write() {
    let mut store = IndexStore::new();
    assert!(store.get_contract(&addr(1)).is_none());
    store.set_contract(addr(1), record("First", "[]"));
    store.set_contract(addr(2), record("Other", "[]"));
    assert_eq!(store.get_contract(&addr(1)).unwrap().name, "First");
    store.set_contract(addr(1), record("Second", "[1]"));
    let found = store.get_contract(&addr(1)).unwrap();
    assert_eq!(found.name, "Second");
    assert_eq!(found.abi, "[1]");
    assert!(found.optimized);
    assert_eq!(store.get_contract(&addr(2)).unwrap().name, "Other");
    assert!(store.get_contract(&addr(3)).is_none());
    let copy = found.duplicate();
    assert_eq!(copy.name, "Second");
    assert_eq!(copy.source, "contract Second {}");
}

#[test]
fn store_is_restored_from_its_entries() {
    let entries = vec![
        StoredEntry::History(addr(1), vec![hash(1), hash(2), hash(1)]),
        StoredEntry::NonEmptyBlock(9),
        StoredEntry::Contract(addr(5), record("Token", "[]")),
        StoredEntry::Cursor(12),
        StoredEntry::NonEmptyBlock(4),
        StoredEntry::History(addr(2), vec![]),
        StoredEntry::History(addr(1), vec![hash(3)]),
        StoredEntry::NonEmptyBlock(9),
    ];
    let mut store = IndexStore::restore(3, &entries);
    assert_eq!(store.get_cursor(), 12);
    assert_eq!(store.iter_address_activity(&addr(1)), vec![hash(1), hash(2), hash(3)]);
    assert_eq!(store.iter_address_activity(&addr(2)), Vec::<H256>::new());
    assert_eq!(store.iter_non_empty_blocks(), vec![4, 9]);
    assert_eq!(store.get_contract(&addr(5)).unwrap().name, "Token");
    assert!(store.take_pending().is_empty());

    let early = IndexStore::restore(30, &vec![StoredEntry::Cursor(12)]);
    assert_eq!(early.get_cursor(), 30);
    let empty = IndexStore::restore(30, &vec![]);
    assert_eq!(empty.get_cursor(), 30);
    assert_eq!(empty.count_non_empty_blocks(), 0);
}
