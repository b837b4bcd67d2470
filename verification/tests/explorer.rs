use chain_explorer::contract::{ContractError, SolcContract, SolcJson};
use chain_explorer::db::{ContractRecord, IndexStore};
use chain_explorer::explorer::neb::{page_blocks, plan, render, render_plan};
use chain_explorer::explorer::tx;
use chain_explorer::explorer::utils::{paginate, Pagination};
use chain_explorer::explorer::{contract_address, error_page, post_contract, Id, PostError};
use chain_explorer::reader::{BlockchainReader, ChainClientError, TraceEntry, Traced};
use chain_explorer::render::{RenderError, RenderKind};
use chain_explorer::types::{
    Address, BlockSummary, Bytes, InternalTransaction, Log, Receipt, Transaction, H256, U256,
};

fn store_with(blocks: u64) -> IndexStore {
    let mut store = IndexStore::new();
    for n in 1..=blocks {
        store.record_non_empty_block(n);
    }
    store
}

#[test]
fn pagination() {
    let store = store_with(37);
    let expected: Vec<u64> = (16..=30).collect();
    assert_eq!(page_blocks(&store, 2), expected);
    assert_eq!(page_blocks(&store, 1), (1..=15).collect::<Vec<u64>>());
    assert_eq!(page_blocks(&store, 3), (31..=37).collect::<Vec<u64>>());
    assert_eq!(page_blocks(&store, 4), Vec::<u64>::new());
    assert_eq!(page_blocks(&store, 0), Vec::<u64>::new());
    assert!(paginate(37, 15, 1).next_page.is_some());
    assert!(paginate(37, 15, 2).next_page.is_some());
    assert!(paginate(37, 15, 3).next_page.is_none());
}

#[test]
fn pages_name_their_neighbours() {
    assert_eq!(
        paginate(37, 15, 1),
        Pagination { from: 0, to: 15, prev_page: None, next_page: Some(2) }
    );
    assert_eq!(
        paginate(37, 15, 2),
        Pagination { from: 15, to: 30, prev_page: Some(1), next_page: Some(3) }
    );
    assert_eq!(
        paginate(37, 15, 3),
        Pagination { from: 30, to: 37, prev_page: Some(2), next_page: None }
    );
    assert_eq!(
        paginate(37, 15, 4),
        Pagination { from: 37, to: 37, prev_page: Some(3), next_page: None }
    );
    assert_eq!(
        paginate(37, 15, 0),
        Pagination { from: 0, to: 0, prev_page: None, next_page: Some(1) }
    );
    assert_eq!(
        paginate(30, 15, 2),
        Pagination { from: 15, to: 30, prev_page: Some(1), next_page: None }
    );
    assert_eq!(paginate(0, 15, 1), Pagination { from: 0, to: 0, prev_page: None, next_page: None });
    assert_eq!(paginate(5, 0, 3), Pagination { from: 0, to: 0, prev_page: Some(2), next_page: None });
    assert_eq!(
        paginate(u64::MAX, u64::MAX, u64::MAX),
        Pagination { from: u64::MAX, to: u64::MAX, prev_page: Some(u64::MAX - 1), next_page: None }
    );
    assert_eq!(
        paginate(u64::MAX, 1, u64::MAX - 1),
        Pagination {
            from: u64::MAX - 2,
            to: u64::MAX - 1,
            prev_page: Some(u64::MAX - 2),
            next_page: Some(u64::MAX)
        }
    );
}

#[test]
fn every_page_but_the_last_has_a_next_page() {
    for count in [1u64, 14, 15, 16, 37, 200] {
        let last = (count + 14) / 15;
        for page in 1..=last {
            let pg = paginate(count, 15, page);
            assert_eq!(pg.next_page.is_some(), page < last);
            assert!(pg.from < pg.to);
            if page > 1 {
                assert_eq!(paginate(count, 15, page - 1).to, pg.from);
            }
        }
    }
}

fn summary(author: u8, tx_count: u64, gas_used: u64, gas_limit: u64) -> BlockSummary {
    BlockSummary { author: Address([author; 20]), tx_count, timestamp: 1_500_000_000, gas_used, gas_limit }
}

#[test]
fn non_empty_blocks_page_lists_its_blocks() {
    let mut store = store_with(37);
    store.advance_cursor(40).unwrap();
    let fetched: Vec<Option<BlockSummary>> =
        (31..=37).map(|n| Some(summary(n as u8, n, 21_000 * n, 8_000_000))).collect();
    let page = render(&store, 3, &fetched).unwrap();
    assert_eq!(page.last_indexed_block, 40);
    assert_eq!(page.blocks.len(), 7);
    assert_eq!(page.blocks[0].block.text, "31");
    assert_eq!(page.blocks[0].block.link, Some("/31".to_string()));
    assert_eq!(page.blocks[0].author.text, format!("0x{}", "1f".repeat(20)));
    assert_eq!(page.blocks[0].tx_count, 31);
    assert_eq!(page.blocks[0].timestamp, 1_500_000_000);
    assert_eq!(page.blocks[0].gas_used, "8%");
    assert_eq!(page.blocks[0].gas_limit, "8.0M");
    assert_eq!(page.blocks[6].block.text, "37");
    assert!(!page.has_next_page);
    assert_eq!(page.next_page, 0);
    assert!(page.has_prev_page);
    assert_eq!(page.prev_page, 2);
}

#[test]
fn gas_is_shown_in_percent_and_millions() {
    let store = store_with(3);
    let fetched = vec![
        Some(summary(1, 1, 4_712_388, 4_712_388)),
        Some(summary(1, 1, u64::MAX, 1)),
        Some(summary(1, 1, 0, 99_999)),
    ];
    let page = render(&store, 1, &fetched).unwrap();
    assert_eq!(page.blocks[0].gas_used, "100%");
    assert_eq!(page.blocks[0].gas_limit, "4.7M");
    assert_eq!(page.blocks[1].gas_used, "1844674407370955161500%");
    assert_eq!(page.blocks[1].gas_limit, "0.0M");
    assert_eq!(page.blocks[2].gas_used, "0%");
    assert_eq!(page.blocks[2].gas_limit, "0.0M");
    assert!(!page.has_prev_page);
    assert_eq!(page.prev_page, 0);
}

#[test]
fn page_with_a_lacking_block_is_unexpected() {
    let store = store_with(3);
    let good = Some(summary(1, 1, 1, 10));
    assert!(matches!(render(&store, 1, &vec![good, None, good]), Err(RenderError::Unexpected)));
    assert!(matches!(render(&store, 1, &vec![good, good]), Err(RenderError::Unexpected)));
    let no_gas = Some(summary(1, 1, 1, 0));
    assert!(matches!(render(&store, 1, &vec![good, good, no_gas]), Err(RenderError::Unexpected)));
    assert!(render(&store, 1, &vec![good, good, good, None]).is_ok());
    assert!(render(&store, 2, &vec![]).unwrap().blocks.is_empty());
}

#[test]
fn only_the_first_two_hundred_blocks_are_listed() {
    let store = store_with(250);
    assert_eq!(page_blocks(&store, 14), (196..=200).collect::<Vec<u64>>());
    assert_eq!(page_blocks(&store, 15), Vec::<u64>::new());
    let fetched: Vec<Option<BlockSummary>> = (0..5).map(|_| Some(summary(1, 1, 1, 10))).collect();
    assert!(!render(&store, 14, &fetched).unwrap().has_next_page);
    let fetched: Vec<Option<BlockSummary>> = (0..15).map(|_| Some(summary(1, 1, 1, 10))).collect();
    let page = render(&store, 13, &fetched).unwrap();
    assert!(page.has_next_page);
    assert_eq!(page.next_page, 14);
}

#[test]
fn identifiers_name_addresses_hashes_and_blocks() {
    let address = format!("0x{}", "ab".repeat(20));
    assert_eq!(Id::from(&address), Some(Id::Addr(Address([0xab; 20]))));
    assert_eq!(Id::from(&address.to_uppercase().replace("0X", "0x")), Some(Id::Addr(Address([0xab; 20]))));
    let hash = format!("0x{}", "0c".repeat(32));
    assert_eq!(Id::from(&hash), Some(Id::Tx(H256([0x0c; 32]))));
    assert_eq!(Id::from("0"), Some(Id::Block(0)));
    assert_eq!(Id::from("1234567"), Some(Id::Block(1_234_567)));
    assert_eq!(Id::from("+12"), Some(Id::Block(12)));
    assert_eq!(Id::from("007"), Some(Id::Block(7)));
    assert_eq!(Id::from("18446744073709551615"), Some(Id::Block(u64::MAX)));
    assert_eq!(Id::from("18446744073709551616"), None);
    assert_eq!(Id::from("99999999999999999999999999"), None);
    assert_eq!(Id::from(""), None);
    assert_eq!(Id::from("+"), None);
    assert_eq!(Id::from("-1"), None);
    assert_eq!(Id::from("12a"), None);
    assert_eq!(Id::from("0x12"), None);
    assert_eq!(Id::from(&format!("0y{}", "ab".repeat(20))), None);
    assert_eq!(Id::from(&format!("0x{}", "zz".repeat(20))), None);
    assert_eq!(Id::from(&format!("0x{}  ", "ab".repeat(19))), None);
    assert_eq!(Id::from(&"1".repeat(42)), None);
    assert_eq!(Id::from(&format!("0x{}", "ab".repeat(21))), None);
    assert_eq!(contract_address(&address), Some(Address([0xab; 20])));
    assert_eq!(contract_address(&hash), None);
    assert_eq!(contract_address("12"), None);
}

#[test]
fn error_page_keeps_blanks_and_shows_underscores_as_blanks() {
    assert_eq!(
        error_page("Not found"),
        "<html><style>body {font-family: Courier;}</style>Not&nbsp;found</html>"
    );
    assert_eq!(
        error_page("a_b  c"),
        "<html><style>body {font-family: Courier;}</style>a b&nbsp;&nbsp;c</html>"
    );
    assert_eq!(error_page(""), "<html><style>body {font-family: Courier;}</style></html>");
    assert_eq!(
        error_page("Error: \u{39e} & <b>"),
        "<html><style>body {font-family: Courier;}</style>Error:&nbsp;\u{39e}&nbsp;&&nbsp;<b></html>"
    );
}

fn compiled() -> SolcJson {
    SolcJson::new(
        vec![(
            "/w/contract.sol:Token".to_string(),
            SolcContract { abi: "[]".to_string(), binruntime: format!("6080{}", "00".repeat(34)) },
        )],
        "0.5.1".to_string(),
    )
}

fn deployed() -> Vec<u8> {
    let mut code = vec![0x60, 0x80];
    code.extend_from_slice(&[9u8; 34]);
    code
}

#[test]
fn posted_contract_is_registered_where_the_code_agrees() {
    let mut store = IndexStore::new();
    let id = format!("0x{}", "ab".repeat(20));
    let path = post_contract(
        &mut store, &id, "contract Token {}", "solc-0.5.1", true, "Token", &compiled(),
        "/w/contract.sol", &deployed(),
    )
    .unwrap();
    assert_eq!(path, format!("/{}", id));
    let record = store.get_contract(&Address([0xab; 20])).unwrap();
    assert_eq!(record.source, "contract Token {}");
    assert_eq!(record.compiler, "solc-0.5.1");
    assert!(record.optimized);
    assert_eq!(record.name, "Token");
    assert_eq!(record.abi, "[]");
    assert!(record.constructor.is_empty());
}

#[test]
fn posted_contract_is_refused_where_the_code_differs() {
    let mut store = IndexStore::new();
    let id = format!("0x{}", "ab".repeat(20));
    let mut code = deployed();
    code[0] = 0x61;
    let r = post_contract(
        &mut store, &id, "contract Token {}", "solc-0.5.1", true, "Token", &compiled(),
        "/w/contract.sol", &code,
    );
    assert!(matches!(r, Err(PostError::Contract(ContractError::CodeDoesNotMatch))));
    assert!(store.get_contract(&Address([0xab; 20])).is_none());
    let r = post_contract(
        &mut store, &id, "contract Token {}", "solc-0.5.1", true, "Other", &compiled(),
        "/w/contract.sol", &deployed(),
    );
    assert!(matches!(r, Err(PostError::Contract(ContractError::ContractNotFound))));
    let r = post_contract(
        &mut store, "12", "contract Token {}", "solc-0.5.1", true, "Token", &compiled(),
        "/w/contract.sol", &deployed(),
    );
    assert!(matches!(r, Err(PostError::BadInput)));
    assert!(store.get_contract(&Address([0xab; 20])).is_none());
}

#[test]
fn reader_delegates_to_the_store() {
    let mut store = store_with(5);
    store.record_address_activity(Address([1; 20]), H256([2; 32]));
    store.advance_cursor(6).unwrap();
    let reader = BlockchainReader::new(&store);
    assert_eq!(reader.last_indexed_block(), 6);
    assert_eq!(reader.address_activity(&Address([1; 20])), vec![H256([2; 32])]);
    assert_eq!(reader.address_activity(&Address([3; 20])), Vec::<H256>::new());
    assert_eq!(reader.non_empty_blocks(1, 3), vec![2, 3, 4]);
    assert_eq!(reader.db.count_non_empty_blocks(), 5);
}

fn itx(n: u8) -> InternalTransaction {
    InternalTransaction {
        from: Address([n; 20]),
        to: Address([n + 1; 20]),
        value: U256([1_500_000_000_000_000_000, 0, 0, 0]),
        input: Bytes(vec![]),
    }
}

fn step(depth: usize, call: Option<u8>) -> TraceEntry {
    TraceEntry { depth, call: call.map(itx) }
}

#[test]
fn trace_without_support_gives_no_internal_transactions() {
    assert_eq!(BlockchainReader::internal_transactions(&Traced::Unsupported).unwrap().len(), 0);
    assert_eq!(BlockchainReader::internal_transactions(&Traced::Steps(vec![])).unwrap().len(), 0);
    assert_eq!(
        BlockchainReader::internal_transactions(&Traced::Failed).unwrap_err(),
        ChainClientError
    );
}

#[test]
fn internal_transactions_are_the_calls_below_the_transaction() {
    let steps = vec![
        step(0, Some(1)),
        step(1, Some(5)),
        step(1, None),
        step(2, Some(7)),
        step(0, None),
        step(3, Some(9)),
    ];
    let found = BlockchainReader::internal_transactions(&Traced::Steps(steps)).unwrap();
    assert_eq!(found.len(), 3);
    assert_eq!(found[0].from, Address([5; 20]));
    assert_eq!(found[0].to, Address([6; 20]));
    assert_eq!(found[1].from, Address([7; 20]));
    assert_eq!(found[2].from, Address([9; 20]));
    assert_eq!(found[2].value, U256([1_500_000_000_000_000_000, 0, 0, 0]));
    let top_only = vec![step(0, Some(1))];
    assert!(BlockchainReader::internal_transactions(&Traced::Steps(top_only)).unwrap().is_empty());
}

fn transaction(to: Option<Address>) -> Transaction {
    Transaction {
        hash: H256([0xaa; 32]),
        block_number: Some(12),
        from: Address([1; 20]),
        to,
        value: U256([0, 0, 0, 0]),
        gas: 21_000,
        gas_price: U256([2_000_000_000, 0, 0, 0]),
        input: Bytes(vec![]),
    }
}

fn receipt(status: Option<u64>) -> Receipt {
    Receipt {
        cumulative_gas_used: 50_000,
        gas_used: 21_000,
        contract_address: None,
        status,
        logs: vec![],
    }
}

#[test]
fn transaction_view_tells_the_status_in_words() {
    let store = IndexStore::new();
    let t = transaction(Some(Address([2; 20])));
    let view = tx::render(&store, Some(&t), Some(&receipt(Some(1))), &vec![itx(3)]).unwrap();
    assert_eq!(view.page.status, "Success");
    assert!(!view.tonewcontract);
    assert_eq!(view.itxs.len(), 1);
    assert_eq!(view.itxs[0].from.text, format!("0x{}", "03".repeat(20)));
    assert_eq!(view.itxs[0].to.text, format!("0x{}", "04".repeat(20)));
    assert_eq!(view.itxs[0].value, "1.5 \u{39e}");
    let view = tx::render(&store, Some(&t), Some(&receipt(Some(0))), &vec![]).unwrap();
    assert_eq!(view.page.status, "Failed");
    let view = tx::render(&store, Some(&t), Some(&receipt(None)), &vec![]).unwrap();
    assert_eq!(view.page.status, "");
    let creation = transaction(None);
    let view = tx::render(&store, Some(&creation), None, &vec![]).unwrap();
    assert!(view.tonewcontract);
    assert_eq!(view.page.status, "");
    assert_eq!(view.page.to.text, "New contract");
    let missing = tx::render(&store, None, None, &vec![]).unwrap_err();
    assert_eq!(missing.kind(), RenderKind::NotFound);
}

#[test]
fn page_is_put_together_from_one_look_at_the_store() {
    let mut store = store_with(17);
    store.advance_cursor(18).unwrap();
    let planned = plan(&store, 2);
    assert_eq!(planned.numbers, vec![16, 17]);
    assert_eq!(planned.last_indexed_block, 18);
    assert_eq!(planned.next_page, None);
    assert_eq!(planned.prev_page, Some(1));
    let fetched = vec![Some(summary(1, 1, 1, 10)), Some(summary(2, 2, 1, 10))];

    store.record_non_empty_block(18);
    store.advance_cursor(19).unwrap();
    let page = render_plan(&planned, &fetched).unwrap();
    assert_eq!(page.blocks.len(), 2);
    assert_eq!(page.blocks[1].block.text, "17");
    assert_eq!(page.last_indexed_block, 18);
    assert!(!page.has_next_page);
    assert!(page.has_prev_page);
    assert_eq!(page.prev_page, 1);
    assert!(matches!(render(&store, 2, &fetched), Err(RenderError::Unexpected)));
    assert!(matches!(render_plan(&planned, &fetched[..1].to_vec()), Err(RenderError::Unexpected)));

    let first = plan(&store, 1);
    assert_eq!(first.numbers, (1..=15).collect::<Vec<u64>>());
    assert_eq!(first.next_page, Some(2));
    assert_eq!(first.prev_page, None);
    assert_eq!(first.last_indexed_block, 19);
}

const ERC20: &str = r#"[
 {"constant":false,"inputs":[{"name":"_to","type":"address"},{"name":"_value","type":"uint256"}],
  "name":"transfer","outputs":[{"name":"","type":"bool"}],"payable":false,
  "stateMutability":"nonpayable","type":"function"},
 {"anonymous":false,"inputs":[{"indexed":true,"name":"from","type":"address"},
  {"indexed":true,"name":"to","type":"address"},{"indexed":false,"name":"value","type":"uint256"}],
  "name":"Transfer","type":"event"}
]"#;

const TRANSFER_TOPIC: [u8; 32] = [
    0xdd, 0xf2, 0x52, 0xad, 0x1b, 0xe2, 0xc8, 0x9b, 0x69, 0xc2, 0xb0, 0x68, 0xfc, 0x37, 0x8d, 0xaa,
    0x95, 0x2b, 0xa7, 0xf1, 0x63, 0xc4, 0xa1, 0x16, 0x28, 0xf5, 0x5a, 0x4d, 0xf5, 0x23, 0xb3, 0xef,
];

fn transfer_log(address: Address) -> Log {
    let mut from = [0u8; 32];
    from[12..].copy_from_slice(&[0x22u8; 20]);
    let mut to = [0u8; 32];
    to[12..].copy_from_slice(&[0x33u8; 20]);
    let mut data = vec![0u8; 32];
    data[31] = 42;
    Log { address, topics: vec![H256(TRANSFER_TOPIC), H256(from), H256(to)], data }
}

#[test]
fn transaction_view_shows_a_decoded_log_without_its_data() {
    let token = Address([0x44; 20]);
    let mut store = IndexStore::new();
    store.set_contract(
        token,
        ContractRecord {
            source: String::new(),
            compiler: String::new(),
            optimized: false,
            name: "Token".to_string(),
            abi: ERC20.to_string(),
            constructor: vec![],
        },
    );
    let mut input = vec![0xa9, 0x05, 0x9c, 0xbb];
    input.extend_from_slice(&[0u8; 12]);
    input.extend_from_slice(&[0x11u8; 20]);
    input.extend_from_slice(&[0u8; 31]);
    input.push(7);
    let mut t = transaction(Some(token));
    t.input = Bytes(input);
    let mut r = receipt(Some(1));
    let mut raw = transfer_log(Address([0x55; 20]));
    raw.data = vec![0xab; 51];
    r.logs = vec![transfer_log(token), raw];
    let view = tx::render(&store, Some(&t), Some(&r), &vec![]).unwrap();
    assert_eq!(
        view.page.logs[0].txt,
        vec![
            "event Transfer".to_string(),
            "  [from] Address(0x2222222222222222222222222222222222222222)".to_string(),
            "  [to] Address(0x3333333333333333333333333333333333333333)".to_string(),
            "  [value] Uint(42)".to_string(),
            "".to_string(),
        ]
    );
    assert_eq!(
        view.page.logs[1].txt,
        vec![
            "data".to_string(),
            format!("  {}", "ab".repeat(50)),
            "  ab".to_string(),
            "topics".to_string(),
            format!("  [0] 0x{}", "ddf252ad1be2c89b69c2b068fc378daa952ba7f163c4a11628f55a4df523b3ef"),
            format!("  [1] 0x{}{}", "00".repeat(12), "22".repeat(20)),
            format!("  [2] 0x{}{}", "00".repeat(12), "33".repeat(20)),
        ]
    );
    assert_eq!(view.page.logs[1].address.text, format!("0x{}", "55".repeat(20)));
    assert_eq!(
        view.page.input,
        vec![
            "function transfer".to_string(),
            "  [0]  Address(0x1111111111111111111111111111111111111111)".to_string(),
            "  [1]  Uint(7)".to_string(),
            "".to_string(),
            format!("a9059cbb{}{}{}", "00".repeat(12), "11".repeat(20), "00".repeat(14)),
            format!("{}07", "00".repeat(17)),
        ]
    );
    assert_eq!(view.page.status, "Success");

    let mut unknown = transaction(Some(token));
    unknown.input = Bytes(vec![1, 2, 3, 4]);
    let e = tx::render(&store, Some(&unknown), None, &vec![]).unwrap_err();
    assert_eq!(e.kind(), RenderKind::Contract(chain_explorer::contract::ErrorKind::FunctionNotFound));
    let plain = transaction(Some(Address([9; 20])));
    let view = tx::render(&store, Some(&plain), None, &vec![]).unwrap();
    assert!(view.page.input.is_empty());
    assert!(view.page.logs.is_empty());
    assert_eq!(view.page.cumulative_gas_used, "");
}
