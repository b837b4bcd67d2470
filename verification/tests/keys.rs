use chain_explorer::db::{ContractRecord, IndexStore, IndexWrite, StoredEntry};
use chain_explorer::durable::{follow, key_of_entry, take_durable};
use chain_explorer::scanner::{index_block_writes, BlockActivity, TxActivity};
use chain_explorer::keys::{decode_key, encode_key, Key};
use chain_explorer::types::{Address, H256};

fn addr(n: u8) -> Address {
    Address([n; 20])
}

#[test]
fn keys_begin_with_the_tag_of_their_kind() {
    assert_eq!(encode_key(&Key::Cursor), vec![0x63]);
    let mut activity = vec![0x61];
    activity.extend_from_slice(&[7u8; 20]);
    assert_eq!(encode_key(&Key::Activity(addr(7))), activity);
    let mut contract = vec![0x6b];
    contract.extend_from_slice(&[7u8; 20]);
    assert_eq!(encode_key(&Key::Contract(addr(7))), contract);
    assert_eq!(
        encode_key(&Key::NonEmptyBlock(0x0102_0304_0506_0708)),
        vec![0x62, 1, 2, 3, 4, 5, 6, 7, 8]
    );
    assert_eq!(encode_key(&Key::NonEmptyBlock(0)), vec![0x62, 0, 0, 0, 0, 0, 0, 0, 0]);
    assert_eq!(
        encode_key(&Key::NonEmptyBlock(u64::MAX)),
        vec![0x62, 255, 255, 255, 255, 255, 255, 255, 255]
    );
}

#[test]
fn keys_read_back_as_what_they_name() {
    let keys = [
        Key::Cursor,
        Key::Activity(addr(0)),
        Key::Activity(addr(0x62)),
        Key::Contract(addr(0)),
        Key::Contract(addr(255)),
        Key::NonEmptyBlock(0),
        Key::NonEmptyBlock(1),
        Key::NonEmptyBlock(256),
        Key::NonEmptyBlock(4_000_000),
        Key::NonEmptyBlock(u64::MAX),
    ];
    for key in keys.iter() {
        assert_eq!(decode_key(&encode_key(key)), Some(*key));
    }
    for (i, a) in keys.iter().enumerate() {
        for (j, b) in keys.iter().enumerate() {
            assert_eq!(encode_key(a) == encode_key(b), i == j);
        }
    }
}

#[test]
fn other_bytes_are_no_key() {
    assert_eq!(decode_key(&[]), None);
    assert_eq!(decode_key(&[0x63, 0]), None);
    assert_eq!(decode_key(&[0x64]), None);
    assert_eq!(decode_key(&[0x61]), None);
    assert_eq!(decode_key(&[0x61; 20]), None);
    assert_eq!(decode_key(&[0x61; 22]), None);
    assert_eq!(decode_key(&[0x62; 8]), None);
    assert_eq!(decode_key(&[0x62; 10]), None);
    assert_eq!(decode_key(&[0x6b; 9]), None);
    assert_eq!(decode_key(&[0x62; 9]), Some(Key::NonEmptyBlock(0x6262_6262_6262_6262)));
    assert_eq!(decode_key(&[0x6b; 21]), Some(Key::Contract(addr(0x6b))));
}

#[test]
fn block_keys_stand_in_the_order_of_the_numbers() {
    let numbers = [0u64, 1, 2, 255, 256, 257, 65_535, 65_536, 1 << 32, (1 << 56) - 1, 1 << 56, u64::MAX];
    for a in numbers.iter() {
        for b in numbers.iter() {
            let ka = encode_key(&Key::NonEmptyBlock(*a));
            let kb = encode_key(&Key::NonEmptyBlock(*b));
            assert_eq!(a < b, ka < kb);
        }
    }
}

#[test]
fn changes_are_kept_under_the_key_of_what_they_change() {
    let h = H256([1; 32]);
    assert_eq!(IndexWrite::Activity { address: addr(3), tx_hash: h }.key(), Key::Activity(addr(3)));
    assert_eq!(IndexWrite::NonEmptyBlock(9).key(), Key::NonEmptyBlock(9));
    assert_eq!(IndexWrite::Cursor(9).key(), Key::Cursor);
    assert_eq!(IndexWrite::Contract(addr(3)).key(), Key::Contract(addr(3)));
}

#[test]
fn only_writes_that_change_the_store_are_pending() {
    let mut store = IndexStore::new();
    assert!(store.take_pending().is_empty());
    store.record_address_activity(addr(1), H256([1; 32]));
    store.record_address_activity(addr(1), H256([1; 32]));
    store.record_non_empty_block(4);
    store.record_non_empty_block(4);
    let _ = store.advance_cursor(0);
    let _ = store.advance_cursor(5);
    store.set_contract(
        addr(2),
        ContractRecord {
            source: String::new(),
            compiler: String::new(),
            optimized: false,
            name: String::new(),
            abi: String::new(),
            constructor: vec![],
        },
    );
    assert_eq!(
        store.take_pending(),
        vec![
            IndexWrite::Activity { address: addr(1), tx_hash: H256([1; 32]) },
            IndexWrite::NonEmptyBlock(4),
            IndexWrite::Cursor(5),
            IndexWrite::Contract(addr(2)),
        ]
    );
    assert!(store.take_pending().is_empty());
    assert_eq!(store.get_cursor(), 5);
    assert_eq!(store.iter_non_empty_blocks(), vec![4]);
    assert_eq!(store.iter_address_activity(&addr(1)), vec![H256([1; 32])]);
}

fn record(name: &str) -> ContractRecord {
    ContractRecord {
        source: String::new(),
        compiler: String::new(),
        optimized: false,
        name: name.to_string(),
        abi: String::new(),
        constructor: vec![],
    }
}

#[test]
fn pending_changes_are_handed_out_with_what_the_store_holds() {
    let mut store = IndexStore::with_genesis(4);
    store.record_address_activity(addr(1), H256([1; 32]));
    store.record_address_activity(addr(1), H256([2; 32]));
    store.record_non_empty_block(4);
    store.set_contract(addr(2), record("First"));
    store.set_contract(addr(2), record("Second"));
    let _ = store.advance_cursor(5);
    let _ = store.advance_cursor(6);
    let entries = take_durable(&mut store);
    let keys: Vec<Key> = entries.iter().map(key_of_entry).collect();
    assert_eq!(
        keys,
        vec![
            Key::Activity(addr(1)),
            Key::Activity(addr(1)),
            Key::NonEmptyBlock(4),
            Key::Contract(addr(2)),
            Key::Contract(addr(2)),
            Key::Cursor,
            Key::Cursor,
        ]
    );
    for entry in &entries {
        match entry {
            StoredEntry::History(a, txs) => {
                assert_eq!(*a, addr(1));
                assert_eq!(*txs, vec![H256([1; 32]), H256([2; 32])]);
            }
            StoredEntry::NonEmptyBlock(n) => assert_eq!(*n, 4),
            StoredEntry::Contract(a, r) => {
                assert_eq!(*a, addr(2));
                assert_eq!(r.name, "Second");
            }
            StoredEntry::Cursor(c) => assert_eq!(*c, 6),
        }
    }
    assert!(take_durable(&mut store).is_empty());
    assert!(store.take_pending().is_empty());
    assert_eq!(store.get_cursor(), 6);
}

fn read_all(store: &IndexStore) -> (u64, Vec<Vec<H256>>, Vec<u64>) {
    (
        store.get_cursor(),
        (0..6u8).map(|n| store.iter_address_activity(&addr(n))).collect(),
        store.iter_non_empty_blocks(),
    )
}

#[test]
fn a_stop_while_writing_does_no_harm() {
    let block = || BlockActivity {
        transactions: vec![
            TxActivity { hash: H256([1; 32]), from: addr(1), to: Some(addr(2)), log_addresses: vec![addr(3)] },
            TxActivity { hash: H256([2; 32]), from: addr(2), to: None, log_addresses: vec![addr(1)] },
        ],
    };
    let mut before = IndexStore::with_genesis(7);
    before.record_address_activity(addr(1), H256([9; 32]));
    before.record_non_empty_block(3);
    let disk: Vec<StoredEntry> = take_durable(&mut before);

    let mut whole = IndexStore::restore(7, &disk);
    index_block_writes(&mut whole, 7, &block());
    whole.advance_cursor(8).unwrap();
    let count = take_durable(&mut whole).len();
    assert_eq!(count, 7);

    for arrived in 0..=count {
        let mut store = IndexStore::restore(7, &disk);
        index_block_writes(&mut store, 7, &block());
        store.advance_cursor(8).unwrap();
        let written = take_durable(&mut store).into_iter().take(arrived);
        let mut on_disk: Vec<StoredEntry> = Vec::new();
        for entry in disk.iter().map(duplicate).chain(written) {
            on_disk.retain(|kept| key_of_entry(kept) != key_of_entry(&entry));
            on_disk.push(entry);
        }
        let mut read_back = IndexStore::restore(7, &on_disk);
        if arrived < count {
            assert_eq!(read_back.get_cursor(), 7);
            index_block_writes(&mut read_back, 7, &block());
            read_back.advance_cursor(8).unwrap();
        }
        assert_eq!(read_all(&read_back), read_all(&whole));
    }
}

fn duplicate(entry: &StoredEntry) -> StoredEntry {
    match entry {
        StoredEntry::Cursor(c) => StoredEntry::Cursor(*c),
        StoredEntry::History(a, txs) => StoredEntry::History(*a, txs.clone()),
        StoredEntry::NonEmptyBlock(n) => StoredEntry::NonEmptyBlock(*n),
        StoredEntry::Contract(a, r) => StoredEntry::Contract(*a, r.duplicate()),
    }
}

fn same_content(a: &IndexStore, b: &IndexStore) {
    assert_eq!(a.get_cursor(), b.get_cursor());
    assert_eq!(a.iter_non_empty_blocks(), b.iter_non_empty_blocks());
    for n in 0..6 {
        assert_eq!(a.iter_address_activity(&addr(n)), b.iter_address_activity(&addr(n)));
        assert_eq!(
            a.get_contract(&addr(n)).map(|r| r.name.clone()),
            b.get_contract(&addr(n)).map(|r| r.name.clone())
        );
    }
}

#[test]
fn pending_changes_are_told_and_stay_pending() {
    let mut store = IndexStore::with_genesis(4);
    assert!(store.pending_writes().is_empty());
    store.record_address_activity(addr(1), H256([1; 32]));
    store.record_address_activity(addr(1), H256([1; 32]));
    store.record_non_empty_block(4);
    let writes = vec![
        IndexWrite::Activity { address: addr(1), tx_hash: H256([1; 32]) },
        IndexWrite::NonEmptyBlock(4),
    ];
    assert_eq!(store.pending_writes(), writes);
    assert_eq!(store.pending_writes(), writes);
    assert_eq!(store.take_pending(), writes);
    assert!(store.pending_writes().is_empty());
}

#[test]
fn second_copy_follows_the_first() {
    let mut first = IndexStore::with_genesis(4);
    let mut second = IndexStore::with_genesis(4);
    first.record_address_activity(addr(1), H256([1; 32]));
    first.record_address_activity(addr(2), H256([1; 32]));
    first.record_address_activity(addr(1), H256([2; 32]));
    first.record_address_activity(addr(1), H256([1; 32]));
    first.record_non_empty_block(9);
    first.record_non_empty_block(4);
    first.set_contract(addr(2), record("First"));
    first.set_contract(addr(2), record("Second"));
    first.set_contract(addr(3), record("Third"));
    let _ = first.advance_cursor(5);
    let _ = first.advance_cursor(3);
    let _ = first.advance_cursor(7);
    let writes = first.pending_writes();
    assert_eq!(writes.len(), 10);
    follow(&mut second, &writes, &first);
    assert!(second.pending_writes().is_empty());
    assert_eq!(first.pending_writes(), writes);
    same_content(&first, &second);
    assert_eq!(second.get_cursor(), 7);
    assert_eq!(second.iter_non_empty_blocks(), vec![4, 9]);
    assert_eq!(second.iter_address_activity(&addr(1)), vec![H256([1; 32]), H256([2; 32])]);
    assert_eq!(second.get_contract(&addr(2)).unwrap().name, "Second");

    first.take_pending();
    first.record_address_activity(addr(1), H256([3; 32]));
    first.set_contract(addr(2), record("Fourth"));
    let _ = first.advance_cursor(8);
    let writes = first.pending_writes();
    follow(&mut second, &writes, &first);
    same_content(&first, &second);
    follow(&mut second, &writes, &first);
    same_content(&first, &second);
    assert_eq!(second.get_contract(&addr(2)).unwrap().name, "Fourth");
}

#[test]
fn following_makes_no_change_that_was_not_made() {
    let first = IndexStore::with_genesis(4);
    let mut second = IndexStore::with_genesis(4);
    second.record_address_activity(addr(5), H256([5; 32]));
    let writes = vec![
        IndexWrite::Contract(addr(1)),
        IndexWrite::Cursor(2),
        IndexWrite::Cursor(4),
    ];
    follow(&mut second, &writes, &first);
    assert!(second.get_contract(&addr(1)).is_none());
    assert_eq!(second.get_cursor(), 4);
    assert_eq!(second.iter_address_activity(&addr(5)), vec![H256([5; 32])]);
    assert!(second.pending_writes().is_empty());
    follow(&mut second, &Vec::new(), &first);
    assert_eq!(second.get_cursor(), 4);
}
