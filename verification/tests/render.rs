use chain_explorer::contract::ErrorKind;
use chain_explorer::db::{ContractRecord, IndexStore};
use chain_explorer::render::{
    addr_info, address_txs, block_info, home, home_blocks, page, show_input, show_input_brief,
    show_log, show_log_brief, tx_info,
    tx_short, BlockId, Ether, GWei, HtmlRender, RenderError, RenderKind, TextWithLink,
    TransactionId, TransactionIdShort,
};
use chain_explorer::text::{decimal, join, parse_u64};
use chain_explorer::types::{
    hex_to_addr, hex_to_h256, Address, Block, BlockSummary, Bytes, Log, Receipt, Transaction, H256,
    U256,
};

const ERC20: &str = r#"[
 {"constant":false,"inputs":[{"name":"_to","type":"address"},{"name":"_value","type":"uint256"}],
  "name":"transfer","outputs":[{"name":"","type":"bool"}],"payable":false,
  "stateMutability":"nonpayable","type":"function"},
 {"anonymous":false,"inputs":[{"indexed":true,"name":"from","type":"address"},
  {"indexed":true,"name":"to","type":"address"},{"indexed":false,"name":"value","type":"uint256"}],
  "name":"Transfer","type":"event"}
]"#;

const TRANSFER_TOPIC: [u8; 32] = [
    0xdd, 0xf2, 0x52, 0xad, 0x1b, 0xe2, 0xc8, 0x9b, 0x69, 0xc2, 0xb0, 0x68, 0xfc, 0x37, 0x8d, 0xaa,
    0x95, 0x2b, 0xa7, 0xf1, 0x63, 0xc4, 0xa1, 0x16, 0x28, 0xf5, 0x5a, 0x4d, 0xf5, 0x23, 0xb3, 0xef,
];

fn wei(n: u64) -> U256 {
    U256([n, 0, 0, 0])
}

#[test]
fn text_with_link_constructors() {
    let link = TextWithLink::new_link("a".to_string(), "/a".to_string());
    assert_eq!(link.text, "a");
    assert_eq!(link.link, Some("/a".to_string()));
    let text = TextWithLink::new_text("b".to_string());
    assert_eq!(text.text, "b");
    assert_eq!(text.link, None);
    let blank = TextWithLink::blank();
    assert_eq!(blank.text, "");
    assert_eq!(blank.link, None);
}

#[test]
fn page_frames_the_body() {
    assert_eq!(
        page("tx_count 3"),
        "<html><style>body {font-family: Courier;}</style>tx count&nbsp;3</html>"
    );
    assert_eq!(page("_"), "<html><style>body {font-family: Courier;}</style> </html>");
}

#[test]
fn address_is_shown_in_hexadecimal_with_a_link() {
    let mut bytes = [0u8; 20];
    bytes[0] = 0x01;
    bytes[19] = 0xfe;
    let shown = Address(bytes).html();
    assert_eq!(shown.text, "0x01000000000000000000000000000000000000fe");
    assert_eq!(shown.link, Some("/0x01000000000000000000000000000000000000fe".to_string()));
    let none: Option<Address> = None;
    assert_eq!(none.html().text, "New contract");
    assert_eq!(none.html().link, None);
    assert_eq!(Some(Address(bytes)).html().text, shown.text);
}

#[test]
fn bytes_are_shown_in_parts_of_32() {
    assert_eq!(Bytes(vec![]).html().text, "");
    assert_eq!(Bytes(vec![0xab]).html().text, "ab,");
    assert_eq!(Bytes(vec![0x01; 32]).html().text, format!("{},", "01".repeat(32)));
    assert_eq!(
        Bytes(vec![0x01; 33]).html().text,
        format!("{},01,", "01".repeat(32))
    );
    assert_eq!(
        Bytes(vec![0xff; 70]).html().text,
        format!("{},{},{},", "ff".repeat(32), "ff".repeat(32), "ff".repeat(6))
    );
    assert_eq!(Bytes(vec![1]).html().link, None);
}

#[test]
fn transaction_and_block_identifiers() {
    let mut bytes = [0x12u8; 32];
    bytes[3] = 0xab;
    let id = TransactionId(H256(bytes));
    assert_eq!(id.html().text, format!("0x121212ab{}", "12".repeat(28)));
    assert_eq!(id.html().link, Some(format!("/0x121212ab{}", "12".repeat(28))));
    let short = TransactionIdShort(id).html();
    assert_eq!(short.text, "121212a");
    assert_eq!(short.link, Some(format!("/0x121212ab{}", "12".repeat(28))));
    assert_eq!(BlockId(0).html().text, "0");
    assert_eq!(BlockId(4_000_123).html().text, "4000123");
    assert_eq!(BlockId(4_000_123).html().link, Some("/4000123".to_string()));
    assert_eq!(BlockId(u64::MAX).html().text, "18446744073709551615");
}

#[test]
fn ether_is_shown_without_trailing_zeros() {
    assert_eq!(Ether(wei(0)).html().text, "0 \u{39e}");
    assert_eq!(Ether(wei(1_000_000_000_000_000_000)).html().text, "1.0 \u{39e}");
    assert_eq!(Ether(wei(1_500_000_000_000_000_000)).html().text, "1.5 \u{39e}");
    assert_eq!(Ether(wei(1)).html().text, "0.1 \u{39e}");
    assert_eq!(Ether(wei(10)).html().text, "0.1 \u{39e}");
    assert_eq!(Ether(wei(1_000_000_000_000_000_001)).html().text, "1.1 \u{39e}");
    assert_eq!(Ether(wei(1_020_000_000_000_000_000)).html().text, "1.2 \u{39e}");
    assert_eq!(Ether(wei(12_345_600_000_000_000_000)).html().text, "12.3456 \u{39e}");
    assert_eq!(Ether(wei(7)).html().link, None);
    assert_eq!(
        Ether(U256([0, 1, 0, 0])).html().text,
        "18.446744073709551616 \u{39e}"
    );
    assert_eq!(
        Ether(U256([u64::MAX, u64::MAX, u64::MAX, u64::MAX])).html().text,
        "115792089237316195423570985008687907853269984665640564039457.584007913129639935 \u{39e}"
    );
}

#[test]
fn gwei_is_shown_with_the_wei() {
    assert_eq!(GWei(wei(2_000_000_000)).html().text, "2 GWei (2000000000)");
    assert_eq!(GWei(wei(999_999_999)).html().text, "0 GWei (999999999)");
    assert_eq!(GWei(wei(0)).html().text, "0 GWei (0)");
    assert_eq!(
        GWei(U256([0, 0, 1, 0])).html().text,
        "340282366920938463463374607431 GWei (340282366920938463463374607431768211456)"
    );
}

#[test]
fn numbers_in_decimal() {
    assert_eq!(decimal(0), "0");
    assert_eq!(decimal(9), "9");
    assert_eq!(decimal(10), "10");
    assert_eq!(decimal(1_000_000), "1000000");
    assert_eq!(decimal(u128::MAX), "340282366920938463463374607431768211455");
    assert_eq!(parse_u64("42"), Some(42));
    assert_eq!(parse_u64("4 2"), None);
    assert_eq!(join(&["a".to_string(), "b".to_string(), "c".to_string()], ","), "a,b,c");
    assert_eq!(join(&["a".to_string()], ","), "a");
    assert_eq!(join(&[], ","), "");
    assert_eq!(join(&["".to_string(), "".to_string()], "--"), "--");
}

#[test]
fn hexadecimal_names_of_addresses_and_hashes() {
    assert_eq!(hex_to_addr(&format!("0x{}", "01".repeat(20))), Some(Address([1; 20])));
    assert_eq!(hex_to_addr(&format!("0x{}", "01".repeat(19))), None);
    assert_eq!(hex_to_addr(&format!("{}", "01".repeat(21))), None);
    assert_eq!(hex_to_addr("0x"), None);
    assert_eq!(hex_to_addr(""), None);
    assert_eq!(hex_to_addr("0"), None);
    assert_eq!(hex_to_addr(&format!("0x {}", "0A".repeat(20))), Some(Address([10; 20])));
    assert_eq!(hex_to_h256(&format!("0x{}", "ff".repeat(32))), Some(H256([255; 32])));
    assert_eq!(hex_to_h256(&format!("0x{}", "ff".repeat(20))), None);
    assert_eq!(hex_to_h256(&format!("0x{}\u{e9}", "ff".repeat(32))), None);
}

fn transaction(to: Option<Address>, input: Vec<u8>) -> Transaction {
    Transaction {
        hash: H256([0xaa; 32]),
        block_number: Some(12),
        from: Address([1; 20]),
        to,
        value: wei(2_500_000_000_000_000_000),
        gas: 21_000,
        gas_price: wei(2_000_000_000),
        input: Bytes(input),
    }
}

fn transfer_input() -> Vec<u8> {
    let mut input = vec![0xa9, 0x05, 0x9c, 0xbb];
    input.extend_from_slice(&[0u8; 12]);
    input.extend_from_slice(&[0x11u8; 20]);
    let mut amount = [0u8; 32];
    amount[31] = 7;
    input.extend_from_slice(&amount);
    input
}

#[test]
fn transaction_in_a_list() {
    let short = tx_short(&transaction(Some(Address([2; 20])), transfer_input()));
    assert_eq!(short.blockno.text, "12");
    assert_eq!(short.blockno.link, Some("/12".to_string()));
    assert_eq!(short.tx.text, "aaaaaaa");
    assert_eq!(short.from.text, format!("0x{}", "01".repeat(20)));
    assert!(!short.tonewcontract);
    assert_eq!(short.to.text, format!("0x{}", "02".repeat(20)));
    assert_eq!(short.shortdata, "a9059cbb");
    assert_eq!(short.value.text, "2.5 \u{39e}");
    let mut pending = transaction(None, vec![0xab, 0xcd]);
    pending.block_number = None;
    let short = tx_short(&pending);
    assert_eq!(short.blockno.text, "");
    assert_eq!(short.blockno.link, None);
    assert!(short.tonewcontract);
    assert_eq!(short.to.text, "");
    assert_eq!(short.shortdata, "abcd");
    assert_eq!(tx_short(&transaction(None, vec![])).shortdata, "");
}

#[test]
fn block_page_lists_the_transactions() {
    let block = Block {
        author: Address([7; 20]),
        timestamp: 99,
        gas_used: 42_000,
        gas_limit: 8_000_000,
        transactions: vec![transaction(None, vec![]), transaction(Some(Address([2; 20])), vec![1])],
    };
    let page = block_info(12, Some(&block)).unwrap();
    assert_eq!(page.blockno, 12);
    assert_eq!(page.author.text, format!("0x{}", "07".repeat(20)));
    assert_eq!(page.gas_used, 42_000);
    assert_eq!(page.gas_limit, 8_000_000);
    assert_eq!(page.timestamp, 99);
    assert_eq!(page.txs.len(), 2);
    assert!(page.txs[0].tonewcontract);
    assert_eq!(page.txs[1].shortdata, "01");
    assert!(matches!(block_info(12, None), Err(RenderError::NotFound)));
}

fn summary(tx_count: u64) -> Option<BlockSummary> {
    Some(BlockSummary { author: Address([0; 20]), tx_count, timestamp: 0, gas_used: 0, gas_limit: 1 })
}

#[test]
fn home_page_lists_the_latest_blocks() {
    assert_eq!(home_blocks(100), (81..=100).rev().collect::<Vec<u64>>());
    assert_eq!(home_blocks(19), (0..=19).rev().collect::<Vec<u64>>());
    assert_eq!(home_blocks(2), vec![2, 1, 0]);
    assert_eq!(home_blocks(0), vec![0]);
    assert_eq!(home_blocks(u64::MAX).len(), 20);
    let store = IndexStore::with_genesis(3);
    let page = home(&store, 2, &vec![summary(5), summary(0), summary(1)]).unwrap();
    assert_eq!(page.last_indexed_block, 3);
    assert_eq!(page.blocks.len(), 3);
    assert_eq!(page.blocks[0].block.text, "2");
    assert_eq!(page.blocks[0].tx_count, 5);
    assert_eq!(page.blocks[2].block.link, Some("/0".to_string()));
    assert_eq!(page.blocks[2].tx_count, 1);
    assert!(matches!(
        home(&store, 2, &vec![summary(5), None, summary(1)]),
        Err(RenderError::Unexpected)
    ));
    assert!(matches!(home(&store, 2, &vec![summary(5)]), Err(RenderError::Unexpected)));
}

fn record(abi: &str) -> ContractRecord {
    ContractRecord {
        source: "contract Token {}".to_string(),
        compiler: "solc".to_string(),
        optimized: false,
        name: "Token".to_string(),
        abi: abi.to_string(),
        constructor: vec![],
    }
}

fn transfer_log(address: Address) -> Log {
    let mut from = [0u8; 32];
    from[12..].copy_from_slice(&[0x22u8; 20]);
    let mut to = [0u8; 32];
    to[12..].copy_from_slice(&[0x33u8; 20]);
    let mut data = vec![0u8; 32];
    data[31] = 42;
    Log { address, topics: vec![H256(TRANSFER_TOPIC), H256(from), H256(to)], data }
}

#[test]
fn log_is_shown_with_data_and_topics() {
    let log = Log { address: Address([4; 20]), topics: vec![H256([1; 32]), H256([2; 32])], data: vec![0xab; 33] };
    let lines = show_log(&None, &log);
    assert_eq!(
        lines,
        vec![
            "data".to_string(),
            format!("  {}", "ab".repeat(32)),
            "  ab".to_string(),
            "  ".to_string(),
            "topics".to_string(),
            format!("  [0] 0x{}", "01".repeat(32)),
            format!("  [1] 0x{}", "02".repeat(32)),
        ]
    );
    let decoded = Some(vec!["event E".to_string()]);
    let lines = show_log(&decoded, &Log { address: Address([4; 20]), topics: vec![], data: vec![] });
    assert_eq!(lines, vec!["event E", "", "data", "  ", "topics"]);
}

#[test]
fn input_is_shown_decoded_and_raw() {
    let call = transaction(Some(Address([2; 20])), vec![0x01, 0x02]);
    assert_eq!(show_input(&None, &call), vec!["0102", ""]);
    let decoded = Some(vec!["function f".to_string(), "  [0]  Bool(true)".to_string()]);
    assert_eq!(
        show_input(&decoded, &call),
        vec!["function f", "  [0]  Bool(true)", "", "0102", ""]
    );
    let creation = transaction(None, vec![0x01, 0x02]);
    assert_eq!(show_input(&decoded, &creation), Vec::<String>::new());
    let empty = transaction(Some(Address([2; 20])), vec![]);
    assert_eq!(show_input(&None, &empty), vec![""]);
}

#[test]
fn transaction_page_decodes_under_registered_contracts() {
    let token = Address([0x44; 20]);
    let mut store = IndexStore::new();
    store.set_contract(token, record(ERC20));
    let tx = transaction(Some(token), transfer_input());
    let receipt = Receipt {
        cumulative_gas_used: 90_000,
        gas_used: 51_000,
        contract_address: None,
        status: Some(1),
        logs: vec![transfer_log(token), transfer_log(Address([0x55; 20]))],
    };
    let page = tx_info(&store, Some(&tx), Some(&receipt)).unwrap();
    assert_eq!(page.txhash, format!("0x{}", "aa".repeat(32)));
    assert_eq!(page.from.text, format!("0x{}", "01".repeat(20)));
    assert_eq!(page.to.text, format!("0x{}", "44".repeat(20)));
    assert_eq!(page.value, "2.5 \u{39e}");
    assert_eq!(page.block.text, "12");
    assert_eq!(page.gas, 21_000);
    assert_eq!(page.gas_price, "2 GWei (2000000000)");
    assert_eq!(page.cumulative_gas_used, "90000");
    assert_eq!(page.gas_used, "51000");
    assert_eq!(page.contract_address.text, "");
    assert_eq!(page.status, "1");
    assert_eq!(page.input[0], "function transfer");
    assert_eq!(page.input[1], "  [0]  Address(0x1111111111111111111111111111111111111111)");
    assert_eq!(page.input[2], "  [1]  Uint(7)");
    assert_eq!(page.input[3], "");
    assert_eq!(page.input.len(), 4 + 3 + 1);
    assert_eq!(page.logs.len(), 2);
    assert_eq!(page.logs[0].address.text, format!("0x{}", "44".repeat(20)));
    assert_eq!(page.logs[0].txt[0], "event Transfer");
    assert_eq!(page.logs[0].txt[3], "  [value] Uint(42)");
    assert_eq!(page.logs[0].txt[4], "");
    assert_eq!(page.logs[0].txt[5], "data");
    assert_eq!(page.logs[1].txt[0], "data");
    assert_eq!(page.logs[1].txt[3], "topics");
    assert_eq!(page.logs[1].txt.len(), 7);
}

#[test]
fn transaction_page_without_receipt_or_recipient() {
    let store = IndexStore::new();
    let mut tx = transaction(None, vec![0x60, 0x80]);
    tx.block_number = None;
    let page = tx_info(&store, Some(&tx), None).unwrap();
    assert_eq!(page.to.text, "New contract");
    assert_eq!(page.block.text, "");
    assert_eq!(page.cumulative_gas_used, "");
    assert_eq!(page.gas_used, "");
    assert_eq!(page.status, "");
    assert!(page.input.is_empty());
    assert!(page.logs.is_empty());
    let receipt = Receipt {
        cumulative_gas_used: 1,
        gas_used: 1,
        contract_address: Some(Address([9; 20])),
        status: None,
        logs: vec![],
    };
    let page = tx_info(&store, Some(&tx), Some(&receipt)).unwrap();
    assert_eq!(page.contract_address.text, format!("0x{}", "09".repeat(20)));
    assert_eq!(page.status, "");
    assert_eq!(tx_info(&store, None, Some(&receipt)).unwrap_err().kind(), RenderKind::NotFound);
}

#[test]
fn transaction_page_fails_where_decoding_fails() {
    let token = Address([0x44; 20]);
    let mut store = IndexStore::new();
    store.set_contract(token, record(ERC20));
    let unknown = transaction(Some(token), vec![1, 2, 3, 4]);
    let e = tx_info(&store, Some(&unknown), None).unwrap_err();
    assert_eq!(e.kind(), RenderKind::Contract(ErrorKind::FunctionNotFound));
    let call = transaction(Some(token), transfer_input());
    let mut other = transfer_log(token);
    other.topics[0] = H256([0; 32]);
    let receipt = Receipt {
        cumulative_gas_used: 1,
        gas_used: 1,
        contract_address: None,
        status: None,
        logs: vec![transfer_log(token), other],
    };
    let e = tx_info(&store, Some(&call), Some(&receipt)).unwrap_err();
    assert_eq!(e.kind(), RenderKind::Contract(ErrorKind::EventNotFound));
    store.set_contract(token, record("not json"));
    let e = tx_info(&store, Some(&call), None).unwrap_err();
    assert_eq!(e.kind(), RenderKind::Contract(ErrorKind::EthAbi));
}

#[test]
fn address_page_lists_history_and_contract() {
    let addr = Address([0x44; 20]);
    let mut store = IndexStore::new();
    for n in 0..25u8 {
        store.record_address_activity(addr, H256([n; 32]));
    }
    let listed = address_txs(&store, &addr);
    assert_eq!(listed.len(), 20);
    assert_eq!(listed[0], H256([0; 32]));
    assert_eq!(listed[19], H256([19; 32]));
    assert_eq!(address_txs(&store, &Address([1; 20])).len(), 0);

    let fetched = vec![
        Some(transaction(Some(addr), vec![1])),
        None,
        Some(transaction(None, vec![2])),
    ];
    let page = addr_info(&store, &addr, &wei(5), &Bytes(vec![]), &fetched);
    assert_eq!(page.address, format!("0x{}", "44".repeat(20)));
    assert_eq!(page.balance, "0.5 \u{39e}");
    assert_eq!(page.txs.len(), 2);
    assert_eq!(page.txs[0].shortdata, "01");
    assert_eq!(page.txs[1].shortdata, "02");
    assert!(!page.hascode);
    assert!(page.rawcode.is_empty());
    assert!(page.contract.is_none());

    store.set_contract(addr, record(ERC20));
    let page = addr_info(&store, &addr, &wei(0), &Bytes(vec![]), &vec![]);
    assert!(page.contract.is_none());
    let page = addr_info(&store, &addr, &wei(0), &Bytes(vec![0x60; 33]), &vec![]);
    assert!(page.hascode);
    assert_eq!(page.rawcode, vec!["60".repeat(32), "60".to_string(), "".to_string()]);
    assert_eq!(page.contract.unwrap().name, "Token");
    let page = addr_info(&store, &Address([1; 20]), &wei(0), &Bytes(vec![0x60]), &vec![]);
    assert!(page.hascode);
    assert!(page.contract.is_none());
}

#[test]
fn log_and_input_in_brief() {
    let log = Log { address: Address([4; 20]), topics: vec![H256([1; 32])], data: vec![0xab; 101] };
    assert_eq!(
        show_log_brief(&None, &log),
        vec![
            "data".to_string(),
            format!("  {}", "ab".repeat(50)),
            format!("  {}", "ab".repeat(50)),
            "  ab".to_string(),
            "topics".to_string(),
            format!("  [0] 0x{}", "01".repeat(32)),
        ]
    );
    let bare = Log { address: Address([4; 20]), topics: vec![], data: vec![] };
    assert_eq!(show_log_brief(&None, &bare), vec!["data", "topics"]);
    let decoded = Some(vec!["event E".to_string(), "  [a] Bool(true)".to_string()]);
    assert_eq!(show_log_brief(&decoded, &log), vec!["event E", "  [a] Bool(true)", ""]);
    assert_eq!(show_log_brief(&Some(vec![]), &log), vec![""]);

    let call = transaction(Some(Address([2; 20])), vec![0x01; 50]);
    assert_eq!(show_input_brief(&None, &call), vec!["01".repeat(50)]);
    let call = transaction(Some(Address([2; 20])), vec![0x01; 51]);
    assert_eq!(show_input_brief(&None, &call), vec!["01".repeat(50), "01".to_string()]);
    assert_eq!(
        show_input_brief(&decoded, &call),
        vec!["event E".to_string(), "  [a] Bool(true)".to_string(), "".to_string(), "01".repeat(50), "01".to_string()]
    );
    let empty = transaction(Some(Address([2; 20])), vec![]);
    assert_eq!(show_input_brief(&None, &empty), Vec::<String>::new());
    let creation = transaction(None, vec![1, 2]);
    assert_eq!(show_input_brief(&decoded, &creation), Vec::<String>::new());
}
