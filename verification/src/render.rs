//! What the pages show: addresses, hashes, block numbers and amounts as
//! text with a link, and the frame of a plain page.

use vstd::prelude::*;
use vstd::slice::slice_subrange;
use crate::contract::{
    call_to_string, hex_encode, hex_text, log_to_string, ContractError, ErrorKind,
};
use crate::db::{ContractRecord, IndexStore, StoreView};
use crate::text::{decimal, decimal_digits, push_char, texts};
use crate::types::{
    u256_decimal, u256_div_mod, Address, Block, BlockSummary, Bytes, Log, Receipt, Transaction,
    H256, U256,
};

verus! {

/// Why a page could not be put together.
#[derive(Debug)]
pub enum RenderError {
    /// The node lacks a block that it should have.
    Unexpected,
    /// What was asked for does not exist.
    NotFound,
    /// A call or a log could not be decoded.
    Contract(ContractError),
}

/// A text, and where it leads if it is a link.
#[derive(Debug)]
pub struct TextWithLink {
    pub text: String,
    pub link: Option<String>,
}

/// The mathematical value of a [`TextWithLink`].
pub struct TextWithLinkView {
    pub text: Seq<char>,
    pub link: Option<Seq<char>>,
}

impl View for TextWithLink {
    type V = TextWithLinkView;

    open spec fn view(&self) -> TextWithLinkView {
        TextWithLinkView {
            text: self.text@,
            link: match self.link {
                Some(link) => Some(link@),
                None => None,
            },
        }
    }
}

impl TextWithLink {
    /// `text` that leads to `link`.
    pub fn new_link(text: String, link: String) -> (out: TextWithLink)
        ensures
            out@ == (TextWithLinkView { text: text@, link: Some(link@) }),
    {
        TextWithLink { text, link: Some(link) }
    }

    /// `text` that leads nowhere.
    pub fn new_text(text: String) -> (out: TextWithLink)
        ensures
            out@ == (TextWithLinkView { text: text@, link: None }),
    {
        TextWithLink { text, link: None }
    }

    /// No text, and no link.
    pub fn blank() -> (out: TextWithLink)
        ensures
            out@ == (TextWithLinkView { text: Seq::empty(), link: None }),
    {
        TextWithLink { text: String::new(), link: None }
    }
}

/// What a page shows for the character `c`: a blank as a blank that does
/// not break, an underscore as a blank, any other character as itself.
pub open spec fn shown_char(c: char) -> Seq<char> {
    if c == ' ' {
        "&nbsp;"@
    } else if c == '_' {
        seq![' ']
    } else {
        seq![c]
    }
}

/// What a page shows for `text`: what it shows for each character, in
/// order.
pub open spec fn shown_text(text: Seq<char>) -> Seq<char>
    decreases text.len(),
{
    if text.len() == 0 {
        Seq::empty()
    } else {
        shown_text(text.drop_last()) + shown_char(text.last())
    }
}

/// The plain page with `inner` as its body.
pub open spec fn page_text(inner: Seq<char>) -> Seq<char> {
    "<html><style>body {font-family: Courier;}</style>"@ + shown_text(inner) + "</html>"@
}

/// The plain page with `innerhtml` as its body, in a fixed-width font,
/// with the blanks of the body kept and its underscores shown as blanks.
pub fn page(innerhtml: &str) -> (html: String)
    ensures
        html@ == page_text(innerhtml@),
{
    let mut html = "<html><style>body {font-family: Courier;}</style>".to_owned();
    let ghost head = html@;
    for c in it: innerhtml.chars()
        invariant
            it.seq() == innerhtml@,
            html@ == head + shown_text(innerhtml@.take(it.index() as int)),
    {
        proof {
            assert(innerhtml@.take(it.index() + 1).drop_last() =~= innerhtml@.take(it.index() as int));
        }
        if c == ' ' {
            html.append("&nbsp;");
        } else if c == '_' {
            push_char(&mut html, ' ');
        } else {
            push_char(&mut html, c);
        }
    }
    proof {
        assert(innerhtml@.take(innerhtml@.len() as int) =~= innerhtml@);
    }
    html.append("</html>");
    html
}

/// What is shown as text with a link.
pub trait HtmlRender {
    /// What [`HtmlRender::html`] gives.
    spec fn shown(&self) -> TextWithLinkView;

    /// The text that stands for the value, and its link.
    fn html(&self) -> (out: TextWithLink)
        ensures
            out@ == self.shown(),
    ;
}

/// `prefix`, then `bytes` in hexadecimal.
pub open spec fn prefixed_hex(prefix: Seq<char>, bytes: Seq<u8>) -> Seq<char> {
    prefix + hex_text(bytes)
}

/// `prefix`, then `bytes` in hexadecimal.
fn hex_with_prefix(prefix: &str, bytes: &[u8]) -> (text: String)
    ensures
        text@ == prefixed_hex(prefix@, bytes@),
{
    let mut text = prefix.to_owned();
    text.append(hex_encode(bytes).as_str());
    text
}

impl HtmlRender for Address {
    /// The address in hexadecimal after `0x`, linked to its own page.
    open spec fn shown(&self) -> TextWithLinkView {
        TextWithLinkView {
            text: prefixed_hex("0x"@, self.0@),
            link: Some(prefixed_hex("/0x"@, self.0@)),
        }
    }

    fn html(&self) -> (out: TextWithLink) {
        TextWithLink::new_link(
            hex_with_prefix("0x", self.0.as_slice()),
            hex_with_prefix("/0x", self.0.as_slice()),
        )
    }
}

/// `bytes` in hexadecimal, 32 bytes at a time, with a comma after each
/// part.
pub open spec fn chunked_hex(bytes: Seq<u8>) -> Seq<char>
    decreases bytes.len(),
{
    if bytes.len() == 0 {
        Seq::empty()
    } else if bytes.len() <= 32 {
        hex_text(bytes) + seq![',']
    } else {
        hex_text(bytes.take(32)) + seq![','] + chunked_hex(bytes.skip(32))
    }
}

impl HtmlRender for Bytes {
    /// The bytes in hexadecimal, 32 at a time, a comma after each part.
    open spec fn shown(&self) -> TextWithLinkView {
        TextWithLinkView { text: chunked_hex(self.0@), link: None }
    }

    fn html(&self) -> (out: TextWithLink) {
        let bytes = self.0.as_slice();
        let mut text = String::new();
        let mut i: usize = 0;
        proof {
            assert(bytes@.skip(0) =~= bytes@);
            assert(text@ + chunked_hex(bytes@) =~= chunked_hex(bytes@));
        }
        while i < bytes.len()
            invariant
                i <= bytes@.len(),
                text@ + chunked_hex(bytes@.skip(i as int)) == chunked_hex(bytes@),
            decreases bytes@.len() - i,
        {
            let end: usize = if bytes.len() - i <= 32 {
                bytes.len()
            } else {
                i + 32
            };
            let part = slice_subrange(bytes, i, end);
            let ghost before = text@;
            text.append(hex_encode(part).as_str());
            push_char(&mut text, ',');
            proof {
                let rest = bytes@.skip(i as int);
                if rest.len() <= 32 {
                    assert(part@ =~= rest);
                    assert(bytes@.skip(end as int) =~= Seq::<u8>::empty());
                    assert(text@ =~= before + chunked_hex(rest));
                } else {
                    assert(part@ =~= rest.take(32));
                    assert(bytes@.skip(end as int) =~= rest.skip(32));
                    assert(text@ + chunked_hex(bytes@.skip(end as int)) =~= before + chunked_hex(
                        rest,
                    ));
                }
            }
            i = end;
        }
        proof {
            assert(bytes@.skip(i as int) =~= Seq::<u8>::empty());
            assert(text@ + Seq::<char>::empty() =~= text@);
        }
        TextWithLink::new_text(text)
    }
}

impl HtmlRender for Option<Address> {
    /// The address, or `New contract` where there is none.
    open spec fn shown(&self) -> TextWithLinkView {
        match *self {
            Some(address) => address.shown(),
            None => TextWithLinkView { text: "New contract"@, link: None },
        }
    }

    fn html(&self) -> (out: TextWithLink) {
        match self {
            Some(address) => address.html(),
            None => TextWithLink::new_text("New contract".to_owned()),
        }
    }
}

/// The hash of a transaction.
#[derive(Clone, Copy, Debug, PartialEq, Eq)]
pub struct TransactionId(pub H256);

/// The hash of a transaction, to be shown by its first digits.
#[derive(Clone, Copy, Debug, PartialEq, Eq)]
pub struct TransactionIdShort(pub TransactionId);

/// The number of a block.
#[derive(Clone, Copy, Debug, PartialEq, Eq)]
pub struct BlockId(pub u64);

/// An amount in wei, to be shown in gigawei.
#[derive(Clone, Copy, Debug, PartialEq, Eq)]
pub struct GWei(pub U256);

/// An amount in wei, to be shown in ether.
#[derive(Clone, Copy, Debug, PartialEq, Eq)]
pub struct Ether(pub U256);

impl HtmlRender for TransactionId {
    /// The hash in hexadecimal after `0x`, linked to the transaction's
    /// page.
    open spec fn shown(&self) -> TextWithLinkView {
        TextWithLinkView {
            text: prefixed_hex("0x"@, self.0.0@),
            link: Some(prefixed_hex("/0x"@, self.0.0@)),
        }
    }

    fn html(&self) -> (out: TextWithLink) {
        TextWithLink::new_link(
            hex_with_prefix("0x", self.0.0.as_slice()),
            hex_with_prefix("/0x", self.0.0.as_slice()),
        )
    }
}

impl HtmlRender for TransactionIdShort {
    /// The first seven hexadecimal digits of the hash, linked to the
    /// transaction's page.
    open spec fn shown(&self) -> TextWithLinkView {
        TextWithLinkView {
            text: hex_text(self.0.0.0@).take(7),
            link: Some(prefixed_hex("/0x"@, self.0.0.0@)),
        }
    }

    fn html(&self) -> (out: TextWithLink) {
        let bytes = self.0.0.0.as_slice();
        let digits = hex_encode(bytes);
        let short = digits.as_str().substring_char(0, 7).to_owned();
        TextWithLink::new_link(short, hex_with_prefix("/0x", bytes))
    }
}

impl HtmlRender for BlockId {
    /// The number in decimal, linked to the block's page.
    open spec fn shown(&self) -> TextWithLinkView {
        TextWithLinkView {
            text: decimal_digits(self.0 as nat),
            link: Some("/"@ + decimal_digits(self.0 as nat)),
        }
    }

    fn html(&self) -> (out: TextWithLink) {
        let mut link = "/".to_owned();
        link.append(decimal(self.0 as u128).as_str());
        TextWithLink::new_link(decimal(self.0 as u128), link)
    }
}

/// How many wei make a gigawei.
pub const WEI_PER_GWEI: u64 = 1_000_000_000;

/// How many wei make an ether.
pub const WEI_PER_ETHER: u64 = 1_000_000_000_000_000_000;

impl HtmlRender for GWei {
    /// The amount in whole gigawei, then the amount in wei in
    /// parentheses.
    open spec fn shown(&self) -> TextWithLinkView {
        TextWithLinkView {
            text: decimal_digits(self.0.value() / (WEI_PER_GWEI as nat)) + " GWei ("@
                + decimal_digits(self.0.value()) + ")"@,
            link: None,
        }
    }

    fn html(&self) -> (out: TextWithLink) {
        let (whole, _) = u256_div_mod(&self.0, &U256::from_u64(WEI_PER_GWEI));
        let mut text = u256_decimal(&whole);
        text.append(" GWei (");
        text.append(u256_decimal(&self.0).as_str());
        text.append(")");
        TextWithLink::new_text(text)
    }
}

/// `n` without the zeros at its end.
pub open spec fn without_trailing_zeros(n: nat) -> nat
    decreases n,
{
    if n > 0 && n % 10 == 0 {
        without_trailing_zeros(n / 10)
    } else {
        n
    }
}

/// `n` without the zeros at its end.
fn strip_trailing_zeros(n: u64) -> (stripped: u64)
    ensures
        stripped == without_trailing_zeros(n as nat),
{
    let mut rest: u64 = n;
    while rest > 0 && rest % 10 == 0
        invariant
            without_trailing_zeros(rest as nat) == without_trailing_zeros(n as nat),
        decreases rest,
    {
        rest = rest / 10;
    }
    rest
}

/// An amount of wei in ether: the whole ether, a point, and the rest in
/// wei without the zeros at its end; `0` alone for nothing.
pub open spec fn ether_text(wei: nat) -> Seq<char> {
    if wei == 0 {
        "0 \u{39e}"@
    } else {
        decimal_digits(wei / (WEI_PER_ETHER as nat)) + "."@ + decimal_digits(
            without_trailing_zeros(wei % (WEI_PER_ETHER as nat)),
        ) + " \u{39e}"@
    }
}

impl HtmlRender for Ether {
    /// The amount in ether.
    open spec fn shown(&self) -> TextWithLinkView {
        TextWithLinkView { text: ether_text(self.0.value()), link: None }
    }

    fn html(&self) -> (out: TextWithLink) {
        if self.0.is_zero() {
            TextWithLink::new_text("0 \u{39e}".to_owned())
        } else {
            let (ether, rest) = u256_div_mod(&self.0, &U256::from_u64(WEI_PER_ETHER));
            let remain = strip_trailing_zeros(rest.low_u64());
            let mut text = u256_decimal(&ether);
            text.append(".");
            text.append(decimal(remain as u128).as_str());
            text.append(" \u{39e}");
            TextWithLink::new_text(text)
        }
    }
}

/// The kind of a [`RenderError`].
#[derive(Clone, Copy, Debug, PartialEq, Eq)]
pub enum RenderKind {
    Unexpected,
    NotFound,
    Contract(ErrorKind),
}

impl RenderError {
    /// The kind of the error.
    pub open spec fn kind_of(self) -> RenderKind {
        match self {
            RenderError::Unexpected => RenderKind::Unexpected,
            RenderError::NotFound => RenderKind::NotFound,
            RenderError::Contract(e) => RenderKind::Contract(e.kind_of()),
        }
    }

    /// The kind of the error.
    pub fn kind(&self) -> (kind: RenderKind)
        ensures
            kind == self.kind_of(),
    {
        match self {
            RenderError::Unexpected => RenderKind::Unexpected,
            RenderError::NotFound => RenderKind::NotFound,
            RenderError::Contract(e) => RenderKind::Contract(e.kind()),
        }
    }
}

/// No text, and no link.
pub open spec fn blank_view() -> TextWithLinkView {
    TextWithLinkView { text: Seq::empty(), link: None }
}

/// One transaction in a list.
#[derive(Debug)]
pub struct TxShort {
    pub blockno: TextWithLink,
    pub tx: TextWithLink,
    pub from: TextWithLink,
    pub tonewcontract: bool,
    pub to: TextWithLink,
    /// The first four bytes of the input, in hexadecimal.
    pub shortdata: String,
    pub value: TextWithLink,
}

/// The mathematical value of a [`TxShort`].
pub struct TxShortView {
    pub blockno: TextWithLinkView,
    pub tx: TextWithLinkView,
    pub from: TextWithLinkView,
    pub tonewcontract: bool,
    pub to: TextWithLinkView,
    pub shortdata: Seq<char>,
    pub value: TextWithLinkView,
}

impl View for TxShort {
    type V = TxShortView;

    open spec fn view(&self) -> TxShortView {
        TxShortView {
            blockno: self.blockno@,
            tx: self.tx@,
            from: self.from@,
            tonewcontract: self.tonewcontract,
            to: self.to@,
            shortdata: self.shortdata@,
            value: self.value@,
        }
    }
}

/// The first bytes of `bytes`, `count` at most.
pub open spec fn front(bytes: Seq<u8>, count: int) -> Seq<u8> {
    if bytes.len() < count {
        bytes
    } else {
        bytes.take(count)
    }
}

/// What a list shows of `tx`: its block, the first digits of its hash,
/// its sender and recipient, the selector of its input, and its value in
/// ether. A pending transaction has no block to show, and a contract
/// creation no recipient.
pub open spec fn tx_short_of(tx: Transaction) -> TxShortView {
    TxShortView {
        blockno: match tx.block_number {
            Some(n) => BlockId(n).shown(),
            None => blank_view(),
        },
        tx: TransactionIdShort(TransactionId(tx.hash)).shown(),
        from: tx.from.shown(),
        tonewcontract: tx.to is None,
        to: match tx.to {
            Some(to) => to.shown(),
            None => blank_view(),
        },
        shortdata: hex_text(front(tx.input.0@, 4)),
        value: Ether(tx.value).shown(),
    }
}

/// What a list shows of `tx`.
pub fn tx_short(tx: &Transaction) -> (out: TxShort)
    ensures
        out@ == tx_short_of(*tx),
{
    let input = tx.input.0.as_slice();
    let shown: usize = if input.len() < 4 {
        input.len()
    } else {
        4
    };
    let head = slice_subrange(input, 0, shown);
    proof {
        assert(head@ =~= front(tx.input.0@, 4));
    }
    TxShort {
        blockno: match tx.block_number {
            Some(n) => BlockId(n).html(),
            None => TextWithLink::blank(),
        },
        tx: TransactionIdShort(TransactionId(tx.hash)).html(),
        from: tx.from.html(),
        tonewcontract: tx.to.is_none(),
        to: match tx.to {
            Some(to) => to.html(),
            None => TextWithLink::blank(),
        },
        shortdata: hex_encode(head),
        value: Ether(tx.value).html(),
    }
}

/// What a list shows of each of `txs`, in order.
pub open spec fn tx_shorts_of(txs: Seq<Transaction>) -> Seq<TxShortView> {
    txs.map_values(|tx: Transaction| tx_short_of(tx))
}

/// The views of `rows`, in order.
pub open spec fn tx_short_views(rows: Seq<TxShort>) -> Seq<TxShortView> {
    rows.map_values(|row: TxShort| row@)
}

/// The page of a block.
#[derive(Debug)]
pub struct BlockPage {
    pub blockno: u64,
    pub author: TextWithLink,
    pub gas_used: u64,
    pub gas_limit: u64,
    pub timestamp: u64,
    pub txs: Vec<TxShort>,
}

/// Whether `page` is the page of block `blockno` with the content
/// `block`.
pub open spec fn block_page_is(page: BlockPage, blockno: u64, block: Block) -> bool {
    &&& page.blockno == blockno
    &&& page.author@ == block.author.shown()
    &&& page.gas_used == block.gas_used
    &&& page.gas_limit == block.gas_limit
    &&& page.timestamp == block.timestamp
    &&& tx_short_views(page.txs@) == tx_shorts_of(block.transactions@)
}

/// Puts together the page of block `blockno` from what the node gave for
/// it. A block that the node lacks is not found. Else the page shows the
/// block's author, its gas and time, and its transactions in order.
pub fn block_info(blockno: u64, block: Option<&Block>) -> (r: Result<BlockPage, RenderError>)
    ensures
        match r {
            Ok(page) => block is Some && block_page_is(page, blockno, *block->0),
            Err(e) => block is None && e matches RenderError::NotFound,
        },
{
    match block {
        None => Err(RenderError::NotFound),
        Some(b) => {
            let mut txs: Vec<TxShort> = Vec::new();
            let mut i: usize = 0;
            while i < b.transactions.len()
                invariant
                    i <= b.transactions@.len(),
                    txs@.len() == i,
                    forall|j: int| 0 <= j < i ==> (#[trigger] txs@[j])@ == tx_short_of(b.transactions@[j]),
                decreases b.transactions@.len() - i,
            {
                txs.push(tx_short(&b.transactions[i]));
                i += 1;
            }
            proof {
                assert(tx_short_views(txs@) =~= tx_shorts_of(b.transactions@));
            }
            Ok(
                BlockPage {
                    blockno,
                    author: b.author.html(),
                    gas_used: b.gas_used,
                    gas_limit: b.gas_limit,
                    timestamp: b.timestamp,
                    txs,
                },
            )
        },
    }
}

/// How many blocks the home page lists.
pub const HOME_BLOCKS: u64 = 20;

/// The blocks that the home page lists where the chain's head is at
/// `head`: the head and the blocks before it, the latest first, 20 at
/// most.
pub open spec fn home_numbers(head: u64) -> Seq<u64> {
    Seq::new(
        if head < HOME_BLOCKS {
            (head + 1) as nat
        } else {
            HOME_BLOCKS as nat
        },
        |i: int| (head - i) as u64,
    )
}

/// The blocks that the home page lists where the chain's head is at
/// `head`.
pub fn home_blocks(head: u64) -> (numbers: Vec<u64>)
    ensures
        numbers@ == home_numbers(head),
{
    let mut numbers: Vec<u64> = Vec::new();
    let mut i: u64 = 0;
    while i < HOME_BLOCKS && i <= head
        invariant
            i <= HOME_BLOCKS,
            i <= head + 1,
            numbers@.len() == i,
            forall|j: int| 0 <= j < i ==> numbers@[j] == head - j,
        decreases HOME_BLOCKS - i,
    {
        numbers.push(head - i);
        i += 1;
    }
    proof {
        assert(numbers@ =~= home_numbers(head));
    }
    numbers
}

/// One line of the home page: a block and how many transactions it
/// holds.
#[derive(Debug)]
pub struct HomeRow {
    pub block: TextWithLink,
    pub tx_count: u64,
}

/// The home page: the latest blocks, and how far the index has come.
#[derive(Debug)]
pub struct HomePage {
    pub last_indexed_block: u64,
    pub blocks: Vec<HomeRow>,
}

/// Whether `fetched` holds each of the first `count` blocks.
pub open spec fn all_found(count: nat, fetched: Seq<Option<BlockSummary>>) -> bool {
    &&& fetched.len() >= count
    &&& forall|i: int| 0 <= i < count ==> (#[trigger] fetched[i]) is Some
}

/// Whether `page` is the home page for a chain whose head is at `head`,
/// over a store whose cursor is at `cursor`, with `fetched` as the blocks.
pub open spec fn home_page_is(page: HomePage, cursor: u64, head: u64, fetched: Seq<Option<BlockSummary>>) -> bool {
    &&& page.last_indexed_block == cursor
    &&& page.blocks@.len() == home_numbers(head).len()
    &&& forall|i: int|
        0 <= i < page.blocks@.len() ==> (#[trigger] page.blocks@[i]).block@ == BlockId(
            home_numbers(head)[i],
        ).shown() && page.blocks@[i].tx_count == fetched[i]->0.tx_count
}

/// Puts together the home page for a chain whose head is at `head`, from
/// `fetched`: what the node gave for each block of [`home_blocks`], in
/// that order. Where a block is lacking, the page fails as unexpected.
/// Else it shows each block with the number of its transactions, and the
/// cursor of the store.
pub fn home(db: &IndexStore, head: u64, fetched: &Vec<Option<BlockSummary>>) -> (r: Result<
    HomePage,
    RenderError,
>)
    requires
        db.wf(),
    ensures
        match r {
            Ok(page) => all_found(home_numbers(head).len(), fetched@) && home_page_is(
                page,
                db@.cursor,
                head,
                fetched@,
            ),
            Err(e) => !all_found(home_numbers(head).len(), fetched@) && e matches RenderError::Unexpected,
        },
{
    let numbers = home_blocks(head);
    if fetched.len() < numbers.len() {
        return Err(RenderError::Unexpected);
    }
    let mut blocks: Vec<HomeRow> = Vec::new();
    let mut i: usize = 0;
    while i < numbers.len()
        invariant
            i <= numbers@.len() <= fetched@.len(),
            numbers@ == home_numbers(head),
            blocks@.len() == i,
            forall|j: int| 0 <= j < i ==> (#[trigger] fetched@[j]) is Some,
            forall|j: int|
                0 <= j < i ==> (#[trigger] blocks@[j]).block@ == BlockId(numbers@[j]).shown()
                    && blocks@[j].tx_count == fetched@[j]->0.tx_count,
        decreases numbers@.len() - i,
    {
        match &fetched[i] {
            Some(block) => {
                blocks.push(HomeRow { block: BlockId(numbers[i]).html(), tx_count: block.tx_count });
            },
            None => {
                return Err(RenderError::Unexpected);
            },
        }
        i += 1;
    }
    Ok(HomePage { last_indexed_block: db.get_cursor(), blocks })
}

/// `bytes` in hexadecimal, `width` bytes to the part.
pub open spec fn hex_parts(bytes: Seq<u8>, width: int) -> Seq<Seq<char>>
    decreases bytes.len(),
{
    if bytes.len() == 0 || width <= 0 {
        Seq::empty()
    } else if bytes.len() <= width {
        seq![hex_text(bytes)]
    } else {
        seq![hex_text(bytes.take(width))] + hex_parts(bytes.skip(width), width)
    }
}

/// The lines that show `bytes`: the bytes in hexadecimal, 32 to the line,
/// and an empty line after them.
pub open spec fn hex_lines(bytes: Seq<u8>) -> Seq<Seq<char>> {
    hex_parts(bytes, 32).push(Seq::empty())
}

/// The views of one more line added are the views with one more view.
proof fn lemma_texts_push(lines: Seq<String>, line: String)
    ensures
        texts(lines.push(line)) == texts(lines).push(line@),
{
    assert(texts(lines.push(line)) =~= texts(lines).push(line@));
}

/// Adds to `out` the bytes in hexadecimal, `width` bytes to the line,
/// each line after `indent`.
fn push_hex_parts(out: &mut Vec<String>, indent: &str, bytes: &[u8], width: usize)
    requires
        width > 0,
    ensures
        texts(final(out)@) == texts(old(out)@) + hex_parts(bytes@, width as int).map_values(
            |line: Seq<char>| indent@ + line,
        ),
{
    let ghost start = texts(out@);
    let ghost pre = |line: Seq<char>| indent@ + line;
    let mut i: usize = 0;
    proof {
        assert(bytes@.skip(0) =~= bytes@);
        assert(start + Seq::<Seq<char>>::empty() =~= start);
        assert(Seq::<Seq<char>>::empty().map_values(pre) =~= Seq::<Seq<char>>::empty());
    }
    let ghost mut done: Seq<Seq<char>> = Seq::empty();
    while i < bytes.len()
        invariant
            width > 0,
            i <= bytes@.len(),
            pre == |line: Seq<char>| indent@ + line,
            texts(out@) == start + done.map_values(pre),
            done + hex_parts(bytes@.skip(i as int), width as int) == hex_parts(bytes@, width as int),
        decreases bytes@.len() - i,
    {
        let end: usize = if bytes.len() - i <= width {
            bytes.len()
        } else {
            i + width
        };
        let part = slice_subrange(bytes, i, end);
        let mut line = indent.to_owned();
        line.append(hex_encode(part).as_str());
        proof {
            let rest = bytes@.skip(i as int);
            lemma_texts_push(out@, line);
            if rest.len() <= width {
                assert(part@ =~= rest);
                assert(bytes@.skip(end as int) =~= Seq::<u8>::empty());
                assert(hex_parts(rest, width as int) =~= seq![hex_text(part@)]);
            } else {
                assert(part@ =~= rest.take(width as int));
                assert(bytes@.skip(end as int) =~= rest.skip(width as int));
            }
            assert(done.push(hex_text(part@)) + hex_parts(bytes@.skip(end as int), width as int)
                =~= done + hex_parts(rest, width as int));
            assert(done.push(hex_text(part@)).map_values(pre) =~= done.map_values(pre).push(
                indent@ + hex_text(part@),
            ));
            assert(start + done.map_values(pre).push(line@) =~= (start + done.map_values(pre)).push(
                line@,
            ));
            done = done.push(hex_text(part@));
        }
        out.push(line);
        i = end;
    }
    proof {
        assert(bytes@.skip(i as int) =~= Seq::<u8>::empty());
        assert(done + Seq::<Seq<char>>::empty() =~= done);
    }
}

/// Adds to `out` the lines that show `bytes`, each after `indent`.
fn push_hex_lines(out: &mut Vec<String>, indent: &str, bytes: &[u8])
    ensures
        texts(final(out)@) == texts(old(out)@) + hex_lines(bytes@).map_values(
            |line: Seq<char>| indent@ + line,
        ),
{
    let ghost start = texts(out@);
    let ghost pre = |line: Seq<char>| indent@ + line;
    push_hex_parts(out, indent, bytes, 32);
    let last = indent.to_owned();
    proof {
        let parts = hex_parts(bytes@, 32);
        lemma_texts_push(out@, last);
        assert(last@ =~= indent@ + Seq::<char>::empty());
        assert(hex_lines(bytes@).map_values(pre) =~= parts.map_values(pre).push(
            indent@ + Seq::<char>::empty(),
        ));
        assert(start + parts.map_values(pre).push(last@) =~= (start + parts.map_values(pre)).push(
            last@,
        ));
    }
    out.push(last);
}

/// Adds copies of `lines` to `out`.
fn push_lines(out: &mut Vec<String>, lines: &Vec<String>)
    ensures
        texts(final(out)@) == texts(old(out)@) + texts(lines@),
{
    let ghost start = texts(out@);
    let mut i: usize = 0;
    proof {
        assert(start + texts(lines@).take(0) =~= start);
    }
    while i < lines.len()
        invariant
            i <= lines@.len(),
            texts(out@) == start + texts(lines@).take(i as int),
        decreases lines@.len() - i,
    {
        let line = lines[i].clone();
        proof {
            lemma_texts_push(out@, line);
            assert((start + texts(lines@).take(i as int)).push(line@) =~= start + texts(lines@).take(
                i + 1,
            ));
        }
        out.push(line);
        i += 1;
    }
    proof {
        assert(texts(lines@).take(i as int) =~= texts(lines@));
    }
}

/// Adds one line to `out`.
fn push_line(out: &mut Vec<String>, line: String)
    ensures
        texts(final(out)@) == texts(old(out)@) + seq![line@],
{
    proof {
        lemma_texts_push(out@, line);
        assert(texts(out@).push(line@) =~= texts(out@) + seq![line@]);
    }
    out.push(line);
}

/// The views of the lines that were decoded, if any were.
pub open spec fn decoded_view(decoded: Option<Vec<String>>) -> Option<Seq<Seq<char>>> {
    match decoded {
        Some(lines) => Some(texts(lines@)),
        None => None,
    }
}

/// What is shown of what was decoded: its lines and an empty line after
/// them, or nothing where nothing was decoded.
pub open spec fn decoded_lines(decoded: Option<Seq<Seq<char>>>) -> Seq<Seq<char>> {
    match decoded {
        Some(lines) => lines.push(Seq::empty()),
        None => Seq::empty(),
    }
}

/// Adds to `out` what is shown of what was decoded.
fn push_decoded(out: &mut Vec<String>, decoded: &Option<Vec<String>>)
    ensures
        texts(final(out)@) == texts(old(out)@) + decoded_lines(
            decoded_view(*decoded),
        ),
{
    match decoded {
        Some(lines) => {
            let ghost start = texts(out@);
            push_lines(out, lines);
            push_line(out, String::new());
            proof {
                assert(start + texts(lines@) + seq![Seq::<char>::empty()] =~= start + texts(
                    lines@,
                ).push(Seq::empty()));
            }
        },
        None => {
            proof {
                assert(texts(out@) + Seq::<Seq<char>>::empty() =~= texts(out@));
            }
        },
    }
}

/// The line that shows topic `topic` at place `i` of a log.
pub open spec fn topic_line(i: int, topic: H256) -> Seq<char> {
    "  ["@ + decimal_digits(i as nat) + "] 0x"@ + hex_text(topic.0@)
}

/// The lines that show `topics`, in order.
pub open spec fn topic_lines(topics: Seq<H256>) -> Seq<Seq<char>> {
    Seq::new(topics.len(), |i: int| topic_line(i, topics[i]))
}

/// Adds to `out` the lines that show `topics`.
fn push_topic_lines(out: &mut Vec<String>, topics: &Vec<H256>)
    ensures
        texts(final(out)@) == texts(old(out)@) + topic_lines(topics@),
{
    let ghost head = texts(out@);
    let mut i: usize = 0;
    proof {
        assert(head + topic_lines(topics@).take(0) =~= head);
    }
    while i < topics.len()
        invariant
            i <= topics@.len(),
            texts(out@) == head + topic_lines(topics@).take(i as int),
        decreases topics@.len() - i,
    {
        let mut line = "  [".to_owned();
        line.append(decimal(i as u128).as_str());
        line.append("] 0x");
        line.append(hex_encode(topics[i].0.as_slice()).as_str());
        proof {
            lemma_texts_push(out@, line);
            assert(line@ =~= topic_line(i as int, topics@[i as int]));
            assert((head + topic_lines(topics@).take(i as int)).push(line@) =~= head + topic_lines(
                topics@,
            ).take(i + 1));
        }
        out.push(line);
        i += 1;
    }
    proof {
        assert(topic_lines(topics@).take(i as int) =~= topic_lines(topics@));
    }
}

/// What is shown of a log: what was decoded of it, if anything, then its
/// data and its topics as they are.
pub open spec fn log_shown(decoded: Option<Seq<Seq<char>>>, log: Log) -> Seq<Seq<char>> {
    decoded_lines(decoded) + seq!["data"@] + hex_lines(log.data@).map_values(
        |line: Seq<char>| "  "@ + line,
    ) + seq!["topics"@] + topic_lines(log.topics@)
}

/// What is shown of a log.
pub fn show_log(decoded: &Option<Vec<String>>, log: &Log) -> (lines: Vec<String>)
    ensures
        texts(lines@) == log_shown(decoded_view(*decoded), *log),
{
    let mut lines: Vec<String> = Vec::new();
    proof {
        assert(texts(lines@) =~= Seq::<Seq<char>>::empty());
    }
    push_decoded(&mut lines, decoded);
    push_line(&mut lines, "data".to_owned());
    push_hex_lines(&mut lines, "  ", log.data.as_slice());
    push_line(&mut lines, "topics".to_owned());
    push_topic_lines(&mut lines, &log.topics);
    proof {
        let d = decoded_lines(decoded_view(*decoded));
        assert(Seq::<Seq<char>>::empty() + d =~= d);
    }
    lines
}

/// How many bytes the page of a transaction shows on one line.
pub const BRIEF_WIDTH: usize = 50;

/// What the page of a transaction shows of a log: what was decoded of
/// it; or, of a log that was not decoded, its data and its topics as
/// they are.
pub open spec fn log_brief(decoded: Option<Seq<Seq<char>>>, log: Log) -> Seq<Seq<char>> {
    match decoded {
        Some(lines) => lines.push(Seq::empty()),
        None => seq!["data"@] + hex_parts(log.data@, BRIEF_WIDTH as int).map_values(
            |line: Seq<char>| "  "@ + line,
        ) + seq!["topics"@] + topic_lines(log.topics@),
    }
}

/// What the page of a transaction shows of a log.
pub fn show_log_brief(decoded: &Option<Vec<String>>, log: &Log) -> (lines: Vec<String>)
    ensures
        texts(lines@) == log_brief(decoded_view(*decoded), *log),
{
    let mut lines: Vec<String> = Vec::new();
    proof {
        assert(texts(lines@) =~= Seq::<Seq<char>>::empty());
    }
    match decoded {
        Some(found) => {
            push_lines(&mut lines, found);
            push_line(&mut lines, String::new());
            proof {
                assert(Seq::<Seq<char>>::empty() + texts(found@) + seq![Seq::<char>::empty()]
                    =~= texts(found@).push(Seq::empty()));
            }
        },
        None => {
            push_line(&mut lines, "data".to_owned());
            push_hex_parts(&mut lines, "  ", log.data.as_slice(), BRIEF_WIDTH);
            push_line(&mut lines, "topics".to_owned());
            push_topic_lines(&mut lines, &log.topics);
            proof {
                assert(Seq::<Seq<char>>::empty() + seq!["data"@] =~= seq!["data"@]);
            }
        },
    }
    lines
}

/// What the page of a transaction shows of its input: nothing for a
/// contract creation; else what was decoded of it, if anything, then the
/// input as it is.
pub open spec fn input_brief(decoded: Option<Seq<Seq<char>>>, tx: Transaction) -> Seq<Seq<char>> {
    if tx.to is None {
        Seq::empty()
    } else {
        decoded_lines(decoded) + hex_parts(tx.input.0@, BRIEF_WIDTH as int)
    }
}

/// What the page of a transaction shows of its input.
pub fn show_input_brief(decoded: &Option<Vec<String>>, tx: &Transaction) -> (lines: Vec<String>)
    ensures
        texts(lines@) == input_brief(decoded_view(*decoded), *tx),
{
    let mut lines: Vec<String> = Vec::new();
    proof {
        assert(texts(lines@) =~= Seq::<Seq<char>>::empty());
    }
    if tx.to.is_some() {
        push_decoded(&mut lines, decoded);
        push_hex_parts(&mut lines, "", tx.input.0.as_slice(), BRIEF_WIDTH);
        proof {
            reveal_strlit("");
            let parts = hex_parts(tx.input.0@, BRIEF_WIDTH as int);
            let pre = |line: Seq<char>| ""@ + line;
            assert(parts.map_values(pre) =~= parts) by {
                assert forall|k: int| 0 <= k < parts.len() implies parts.map_values(pre)[k]
                    == parts[k] by {
                    assert(""@ + parts[k] =~= parts[k]);
                }
            }
            let d = decoded_lines(decoded_view(*decoded));
            assert(Seq::<Seq<char>>::empty() + d =~= d);
        }
    }
    lines
}

/// What is shown of the input of a transaction: nothing for a contract
/// creation; else what was decoded of it, if anything, then the input as
/// it is.
pub open spec fn input_shown(decoded: Option<Seq<Seq<char>>>, tx: Transaction) -> Seq<Seq<char>> {
    if tx.to is None {
        Seq::empty()
    } else {
        decoded_lines(decoded) + hex_lines(tx.input.0@)
    }
}

/// What is shown of the input of a transaction.
pub fn show_input(decoded: &Option<Vec<String>>, tx: &Transaction) -> (lines: Vec<String>)
    ensures
        texts(lines@) == input_shown(
            decoded_view(*decoded),
            *tx,
        ),
{
    let mut lines: Vec<String> = Vec::new();
    proof {
        assert(texts(lines@) =~= Seq::<Seq<char>>::empty());
    }
    if tx.to.is_some() {
        push_decoded(&mut lines, decoded);
        let ghost head = texts(lines@);
        push_hex_lines(&mut lines, "", tx.input.0.as_slice());
        proof {
            reveal_strlit("");
            let pre = |line: Seq<char>| ""@ + line;
            assert(hex_lines(tx.input.0@).map_values(pre) =~= hex_lines(tx.input.0@)) by {
                assert forall|k: int| 0 <= k < hex_lines(tx.input.0@).len() implies hex_lines(
                    tx.input.0@,
                ).map_values(pre)[k] == hex_lines(tx.input.0@)[k] by {
                    assert(""@ + hex_lines(tx.input.0@)[k] =~= hex_lines(tx.input.0@)[k]);
                }
            }
            let d = decoded_lines(
                decoded_view(*decoded),
            );
            assert(Seq::<Seq<char>>::empty() + d =~= d);
        }
    }
    lines
}

/// What decoding under the contract of `address` gives, where `text` is
/// what decoding under an interface description gives: nothing where the
/// store holds no contract for the address, else what `text` gives under
/// the description of that contract.
pub open spec fn decoded_under(
    store: StoreView,
    address: Address,
    text: spec_fn(Seq<char>) -> Result<Seq<Seq<char>>, ErrorKind>,
) -> Result<Option<Seq<Seq<char>>>, ErrorKind> {
    if store.contracts.contains_key(address) {
        match text(store.contracts[address].abi) {
            Ok(lines) => Ok(Some(lines)),
            Err(kind) => Err(kind),
        }
    } else {
        Ok(None)
    }
}

/// What decoding `log` under the contract that emitted it gives.
pub open spec fn log_decoded(store: StoreView, log: Log) -> Result<Option<Seq<Seq<char>>>, ErrorKind> {
    decoded_under(
        store,
        log.address,
        |abi: Seq<char>| crate::contract::log_text(abi, log.topics@, log.data@),
    )
}

/// What decoding the input of `tx` under the contract that it calls
/// gives; nothing for a contract creation.
pub open spec fn call_decoded(store: StoreView, tx: Transaction) -> Result<Option<Seq<Seq<char>>>, ErrorKind> {
    match tx.to {
        Some(to) => decoded_under(
            store,
            to,
            |abi: Seq<char>| crate::contract::call_text(abi, tx.input.0@),
        ),
        None => Ok(None),
    }
}

/// What is shown of a log: in brief as [`log_brief`] has it, else as
/// [`log_shown`] has it.
pub open spec fn log_laid_out(decoded: Option<Seq<Seq<char>>>, log: Log, brief: bool) -> Seq<Seq<char>> {
    if brief {
        log_brief(decoded, log)
    } else {
        log_shown(decoded, log)
    }
}

/// What is shown of the input of a transaction: in brief as
/// [`input_brief`] has it, else as [`input_shown`] has it.
pub open spec fn input_laid_out(decoded: Option<Seq<Seq<char>>>, tx: Transaction, brief: bool) -> Seq<Seq<char>> {
    if brief {
        input_brief(decoded, tx)
    } else {
        input_shown(decoded, tx)
    }
}

/// What is shown of each of `logs`, decoded in order; the first log that
/// cannot be decoded under its contract gives the error.
pub open spec fn logs_laid_out(store: StoreView, logs: Seq<Log>, brief: bool) -> Result<Seq<LogShownView>, ErrorKind>
    decreases logs.len(),
{
    if logs.len() == 0 {
        Ok(Seq::empty())
    } else {
        match logs_laid_out(store, logs.drop_last(), brief) {
            Err(kind) => Err(kind),
            Ok(shown) => match log_decoded(store, logs.last()) {
                Err(kind) => Err(kind),
                Ok(decoded) => Ok(
                    shown.push(
                        LogShownView {
                            address: logs.last().address.shown(),
                            txt: log_laid_out(decoded, logs.last(), brief),
                        },
                    ),
                ),
            },
        }
    }
}

/// What is shown of each of `logs` with its data and topics, decoded in
/// order; the first log that cannot be decoded under its contract gives
/// the error.
pub open spec fn logs_shown(store: StoreView, logs: Seq<Log>) -> Result<Seq<LogShownView>, ErrorKind> {
    logs_laid_out(store, logs, false)
}

/// Decodes `log` under the contract that emitted it, if the store holds
/// one.
pub fn decode_log_of(db: &IndexStore, log: &Log) -> (r: Result<Option<Vec<String>>, ContractError>)
    requires
        db.wf(),
    ensures
        match r {
            Ok(decoded) => log_decoded(db@, *log) == Ok::<Option<Seq<Seq<char>>>, ErrorKind>(
                decoded_view(decoded),
            ),
            Err(e) => log_decoded(db@, *log) == Err::<Option<Seq<Seq<char>>>, ErrorKind>(e.kind_of()),
        },
{
    match db.get_contract(&log.address) {
        Some(contract) => match log_to_string(contract.abi.as_str(), log) {
            Ok(lines) => Ok(Some(lines)),
            Err(e) => Err(e),
        },
        None => Ok(None),
    }
}

/// Decodes the input of `tx` under the contract that it calls, if the
/// store holds one.
pub fn decode_call_of(db: &IndexStore, tx: &Transaction) -> (r: Result<
    Option<Vec<String>>,
    ContractError,
>)
    requires
        db.wf(),
    ensures
        match r {
            Ok(decoded) => call_decoded(db@, *tx) == Ok::<Option<Seq<Seq<char>>>, ErrorKind>(
                decoded_view(decoded),
            ),
            Err(e) => call_decoded(db@, *tx) == Err::<Option<Seq<Seq<char>>>, ErrorKind>(e.kind_of()),
        },
{
    match &tx.to {
        Some(to) => match db.get_contract(to) {
            Some(contract) => match call_to_string(contract.abi.as_str(), tx.input.0.as_slice()) {
                Ok(lines) => Ok(Some(lines)),
                Err(e) => Err(e),
            },
            None => Ok(None),
        },
        None => Ok(None),
    }
}

/// A log on the page of a transaction.
#[derive(Debug)]
pub struct LogShown {
    pub address: TextWithLink,
    pub txt: Vec<String>,
}

/// The mathematical value of a [`LogShown`].
pub struct LogShownView {
    pub address: TextWithLinkView,
    pub txt: Seq<Seq<char>>,
}

impl View for LogShown {
    type V = LogShownView;

    open spec fn view(&self) -> LogShownView {
        LogShownView { address: self.address@, txt: texts(self.txt@) }
    }
}

/// The views of `logs`, in order.
pub open spec fn log_shown_views(logs: Seq<LogShown>) -> Seq<LogShownView> {
    logs.map_values(|log: LogShown| log@)
}

/// Shows each of `logs`, decoded under its contract where the store holds
/// one, in brief or with its data and topics.
pub fn lay_out_logs(db: &IndexStore, logs: &Vec<Log>, brief: bool) -> (r: Result<
    Vec<LogShown>,
    ContractError,
>)
    requires
        db.wf(),
    ensures
        match r {
            Ok(shown) => logs_laid_out(db@, logs@, brief) == Ok::<Seq<LogShownView>, ErrorKind>(
                log_shown_views(shown@),
            ),
            Err(e) => logs_laid_out(db@, logs@, brief) == Err::<Seq<LogShownView>, ErrorKind>(
                e.kind_of(),
            ),
        },
{
    let mut shown: Vec<LogShown> = Vec::new();
    let mut i: usize = 0;
    proof {
        assert(logs@.take(0) =~= Seq::<Log>::empty());
        assert(log_shown_views(shown@) =~= Seq::<LogShownView>::empty());
    }
    while i < logs.len()
        invariant
            i <= logs@.len(),
            db.wf(),
            logs_laid_out(db@, logs@.take(i as int), brief) == Ok::<Seq<LogShownView>, ErrorKind>(
                log_shown_views(shown@),
            ),
        decreases logs@.len() - i,
    {
        let log = &logs[i];
        proof {
            assert(logs@.take(i + 1).drop_last() =~= logs@.take(i as int));
            assert(logs@.take(i + 1).last() == *log);
        }
        match decode_log_of(db, log) {
            Err(e) => {
                proof {
                    lemma_logs_laid_out_fails(db@, logs@, i + 1, brief);
                }
                return Err(e);
            },
            Ok(decoded) => {
                let txt = if brief {
                    show_log_brief(&decoded, log)
                } else {
                    show_log(&decoded, log)
                };
                let line = LogShown { address: log.address.html(), txt };
                proof {
                    assert(log_shown_views(shown@.push(line)) =~= log_shown_views(shown@).push(line@));
                }
                shown.push(line);
            },
        }
        i += 1;
    }
    proof {
        assert(logs@.take(i as int) =~= logs@);
    }
    Ok(shown)
}

/// Shows each of `logs` with its data and topics, decoded under its
/// contract where the store holds one.
pub fn show_logs(db: &IndexStore, logs: &Vec<Log>) -> (r: Result<Vec<LogShown>, ContractError>)
    requires
        db.wf(),
    ensures
        match r {
            Ok(shown) => logs_shown(db@, logs@) == Ok::<Seq<LogShownView>, ErrorKind>(
                log_shown_views(shown@),
            ),
            Err(e) => logs_shown(db@, logs@) == Err::<Seq<LogShownView>, ErrorKind>(e.kind_of()),
        },
{
    lay_out_logs(db, logs, false)
}

/// Where the first logs cannot be shown, no more of them can, and for
/// the same reason.
proof fn lemma_logs_laid_out_fails(store: StoreView, logs: Seq<Log>, k: int, brief: bool)
    requires
        0 <= k <= logs.len(),
        logs_laid_out(store, logs.take(k), brief) is Err,
    ensures
        logs_laid_out(store, logs, brief) == logs_laid_out(store, logs.take(k), brief),
    decreases logs.len() - k,
{
    if k < logs.len() {
        assert(logs.take(k + 1).drop_last() =~= logs.take(k));
        lemma_logs_laid_out_fails(store, logs, k + 1, brief);
    } else {
        assert(logs.take(k) =~= logs);
    }
}

/// The page of a transaction.
#[derive(Debug)]
pub struct TxPage {
    pub txhash: String,
    pub from: TextWithLink,
    pub to: TextWithLink,
    pub value: String,
    pub block: TextWithLink,
    pub gas: u64,
    pub gas_price: String,
    pub cumulative_gas_used: String,
    pub gas_used: String,
    pub contract_address: TextWithLink,
    pub status: String,
    pub input: Vec<String>,
    pub logs: Vec<LogShown>,
}

/// The mathematical value of a [`TxPage`].
pub struct TxPageView {
    pub txhash: Seq<char>,
    pub from: TextWithLinkView,
    pub to: TextWithLinkView,
    pub value: Seq<char>,
    pub block: TextWithLinkView,
    pub gas: u64,
    pub gas_price: Seq<char>,
    pub cumulative_gas_used: Seq<char>,
    pub gas_used: Seq<char>,
    pub contract_address: TextWithLinkView,
    pub status: Seq<char>,
    pub input: Seq<Seq<char>>,
    pub logs: Seq<LogShownView>,
}

impl View for TxPage {
    type V = TxPageView;

    open spec fn view(&self) -> TxPageView {
        TxPageView {
            txhash: self.txhash@,
            from: self.from@,
            to: self.to@,
            value: self.value@,
            block: self.block@,
            gas: self.gas,
            gas_price: self.gas_price@,
            cumulative_gas_used: self.cumulative_gas_used@,
            gas_used: self.gas_used@,
            contract_address: self.contract_address@,
            status: self.status@,
            input: texts(self.input@),
            logs: log_shown_views(self.logs@),
        }
    }
}

/// A page or an error, with the page by its view and the error by its
/// kind.
pub open spec fn tx_page_or_kind(r: Result<TxPage, RenderError>) -> Result<TxPageView, RenderKind> {
    match r {
        Ok(page) => Ok(page@),
        Err(e) => Err(e.kind_of()),
    }
}

/// The logs of a receipt; none where there is no receipt.
pub open spec fn logs_of(receipt: Option<Receipt>) -> Seq<Log> {
    match receipt {
        Some(receipt) => receipt.logs@,
        None => Seq::empty(),
    }
}

/// The page of transaction `tx` with the receipt `receipt`, the status of
/// the receipt shown as `status`, and logs and input in brief or at
/// length. The logs are decoded first and in order, then the input, each
/// under the contract that the store holds for its address, and the first
/// that cannot be decoded gives the error. What the receipt would tell is
/// empty while there is none.
pub open spec fn tx_page_laid_out(
    store: StoreView,
    tx: Transaction,
    receipt: Option<Receipt>,
    status: Seq<char>,
    brief: bool,
) -> Result<TxPageView, RenderKind> {
    match logs_laid_out(store, logs_of(receipt), brief) {
        Err(kind) => Err(RenderKind::Contract(kind)),
        Ok(logs) => match call_decoded(store, tx) {
            Err(kind) => Err(RenderKind::Contract(kind)),
            Ok(call) => Ok(
                TxPageView {
                    txhash: prefixed_hex("0x"@, tx.hash.0@),
                    from: tx.from.shown(),
                    to: tx.to.shown(),
                    value: Ether(tx.value).shown().text,
                    block: match tx.block_number {
                        Some(n) => BlockId(n).shown(),
                        None => blank_view(),
                    },
                    gas: tx.gas,
                    gas_price: GWei(tx.gas_price).shown().text,
                    cumulative_gas_used: match receipt {
                        Some(receipt) => decimal_digits(receipt.cumulative_gas_used as nat),
                        None => Seq::empty(),
                    },
                    gas_used: match receipt {
                        Some(receipt) => decimal_digits(receipt.gas_used as nat),
                        None => Seq::empty(),
                    },
                    contract_address: match receipt {
                        Some(Receipt { contract_address: Some(created), .. }) => created.shown(),
                        _ => blank_view(),
                    },
                    status,
                    input: input_laid_out(call, tx, brief),
                    logs,
                },
            ),
        },
    }
}

/// The page of transaction `tx` with the receipt `receipt`, the status of
/// the receipt shown as `status`, and logs and input at length.
pub open spec fn tx_page_of(store: StoreView, tx: Transaction, receipt: Option<Receipt>, status: Seq<char>) -> Result<TxPageView, RenderKind> {
    tx_page_laid_out(store, tx, receipt, status, false)
}

/// The status of a receipt as a number; empty where the receipt tells
/// none, or there is no receipt.
pub open spec fn status_number(receipt: Option<Receipt>) -> Seq<char> {
    match receipt {
        Some(Receipt { status: Some(status), .. }) => decimal_digits(status as nat),
        _ => Seq::empty(),
    }
}

/// Puts together the page of a transaction from the transaction, its
/// receipt and `status`, with logs and input in brief or at length.
pub fn lay_out_tx_page(
    db: &IndexStore,
    tx: &Transaction,
    receipt: Option<&Receipt>,
    status: String,
    brief: bool,
) -> (r: Result<TxPage, RenderError>)
    requires
        db.wf(),
    ensures
        tx_page_or_kind(r) == tx_page_laid_out(
            db@,
            *tx,
            match receipt {
                Some(receipt) => Some(*receipt),
                None => None,
            },
            status@,
            brief,
        ),
{
    let mut cumulative_gas_used = String::new();
    let mut gas_used = String::new();
    let mut contract_address = TextWithLink::blank();
    let mut logs: Vec<LogShown> = Vec::new();
    proof {
        assert(log_shown_views(logs@) =~= Seq::<LogShownView>::empty());
    }
    match receipt {
        Some(receipt) => {
            cumulative_gas_used = decimal(receipt.cumulative_gas_used as u128);
            gas_used = decimal(receipt.gas_used as u128);
            match &receipt.contract_address {
                Some(created) => {
                    contract_address = created.html();
                },
                None => {},
            }
            match lay_out_logs(db, &receipt.logs, brief) {
                Ok(shown) => {
                    logs = shown;
                },
                Err(e) => {
                    return Err(RenderError::Contract(e));
                },
            }
        },
        None => {},
    }
    let call = match decode_call_of(db, tx) {
        Ok(call) => call,
        Err(e) => {
            return Err(RenderError::Contract(e));
        },
    };
    let input = if brief {
        show_input_brief(&call, tx)
    } else {
        show_input(&call, tx)
    };
    Ok(
        TxPage {
            txhash: hex_with_prefix("0x", tx.hash.0.as_slice()),
            from: tx.from.html(),
            to: tx.to.html(),
            value: Ether(tx.value).html().text,
            block: match tx.block_number {
                Some(n) => BlockId(n).html(),
                None => TextWithLink::blank(),
            },
            gas: tx.gas,
            gas_price: GWei(tx.gas_price).html().text,
            cumulative_gas_used,
            gas_used,
            contract_address,
            status,
            input,
            logs,
        },
    )
}

/// Puts together the page of a transaction from the transaction, its
/// receipt and `status`, with logs and input at length.
pub fn tx_page(db: &IndexStore, tx: &Transaction, receipt: Option<&Receipt>, status: String) -> (r:
    Result<TxPage, RenderError>)
    requires
        db.wf(),
    ensures
        tx_page_or_kind(r) == tx_page_of(
            db@,
            *tx,
            match receipt {
                Some(receipt) => Some(*receipt),
                None => None,
            },
            status@,
        ),
{
    lay_out_tx_page(db, tx, receipt, status, false)
}

/// Puts together the page of a transaction from what the node gave for
/// it. A transaction that the node lacks is not found. The status of the
/// receipt is shown as a number.
pub fn tx_info(db: &IndexStore, tx: Option<&Transaction>, receipt: Option<&Receipt>) -> (r: Result<
    TxPage,
    RenderError,
>)
    requires
        db.wf(),
    ensures
        tx is None ==> tx_page_or_kind(r) == Err::<TxPageView, RenderKind>(RenderKind::NotFound),
        tx is Some ==> tx_page_or_kind(r) == tx_page_of(
            db@,
            *tx->0,
            match receipt {
                Some(receipt) => Some(*receipt),
                None => None,
            },
            status_number(
                match receipt {
                    Some(receipt) => Some(*receipt),
                    None => None,
                },
            ),
        ),
{
    match tx {
        None => Err(RenderError::NotFound),
        Some(tx) => {
            let status = match receipt {
                Some(receipt) => match receipt.status {
                    Some(status) => decimal(status as u128),
                    None => String::new(),
                },
                None => String::new(),
            };
            tx_page(db, tx, receipt, status)
        },
    }
}

/// How many transactions the page of an address lists.
pub const ADDRESS_TXS: usize = 20;

/// The first of `hashes`, `count` at most.
pub open spec fn front_hashes(hashes: Seq<H256>, count: int) -> Seq<H256> {
    if hashes.len() < count {
        hashes
    } else {
        hashes.take(count)
    }
}

/// The transactions that the page of `addr` lists: the first 20 of its
/// history, oldest first.
pub fn address_txs(db: &IndexStore, addr: &Address) -> (hashes: Vec<H256>)
    requires
        db.wf(),
    ensures
        hashes@ == front_hashes(db@.history(*addr), ADDRESS_TXS as int),
{
    let mut hashes = db.iter_address_activity(addr);
    if hashes.len() > ADDRESS_TXS {
        hashes.truncate(ADDRESS_TXS);
    }
    proof {
        assert(hashes@ =~= front_hashes(db@.history(*addr), ADDRESS_TXS as int));
    }
    hashes
}

/// What a list shows of those of `fetched` that were found, in order.
pub open spec fn found_shorts(fetched: Seq<Option<Transaction>>) -> Seq<TxShortView>
    decreases fetched.len(),
{
    if fetched.len() == 0 {
        Seq::empty()
    } else {
        match fetched.last() {
            Some(tx) => found_shorts(fetched.drop_last()).push(tx_short_of(tx)),
            None => found_shorts(fetched.drop_last()),
        }
    }
}

/// The page of an address.
#[derive(Debug)]
pub struct AddrPage {
    pub address: String,
    pub balance: String,
    pub txs: Vec<TxShort>,
    pub hascode: bool,
    /// The code in hexadecimal, line by line; empty without code.
    pub rawcode: Vec<String>,
    /// The contract that was verified for the address, where it has code
    /// and the store holds one.
    pub contract: Option<ContractRecord>,
}

/// Whether `page` is the page of `addr`, which holds `balance` wei and
/// the code `code`, with `fetched` as what the node gave for the
/// transactions that the page lists.
pub open spec fn addr_page_is(
    page: AddrPage,
    store: StoreView,
    addr: Address,
    balance: U256,
    code: Seq<u8>,
    fetched: Seq<Option<Transaction>>,
) -> bool {
    &&& page.address@ == prefixed_hex("0x"@, addr.0@)
    &&& page.balance@ == ether_text(balance.value())
    &&& tx_short_views(page.txs@) == found_shorts(fetched)
    &&& page.hascode == (code.len() > 0)
    &&& texts(page.rawcode@) == if code.len() > 0 {
        hex_lines(code)
    } else {
        Seq::empty()
    }
    &&& page.contract is Some <==> code.len() > 0 && store.contracts.contains_key(addr)
    &&& page.contract is Some ==> page.contract->0@ == store.contracts[addr]
}

/// Puts together the page of `addr` from its balance, its code and
/// `fetched`: what the node gave for each transaction of [`address_txs`].
/// Transactions that the node lacks are left out. The contract is looked
/// up only for an address with code.
pub fn addr_info(
    db: &IndexStore,
    addr: &Address,
    balance: &U256,
    code: &Bytes,
    fetched: &Vec<Option<Transaction>>,
) -> (page: AddrPage)
    requires
        db.wf(),
    ensures
        addr_page_is(page, db@, *addr, *balance, code.0@, fetched@),
{
    let mut txs: Vec<TxShort> = Vec::new();
    let mut i: usize = 0;
    proof {
        assert(fetched@.take(0) =~= Seq::<Option<Transaction>>::empty());
        assert(tx_short_views(txs@) =~= Seq::<TxShortView>::empty());
    }
    while i < fetched.len()
        invariant
            i <= fetched@.len(),
            tx_short_views(txs@) == found_shorts(fetched@.take(i as int)),
        decreases fetched@.len() - i,
    {
        proof {
            assert(fetched@.take(i + 1).drop_last() =~= fetched@.take(i as int));
            assert(fetched@.take(i + 1).last() == fetched@[i as int]);
        }
        match &fetched[i] {
            Some(tx) => {
                let row = tx_short(tx);
                proof {
                    assert(tx_short_views(txs@.push(row)) =~= tx_short_views(txs@).push(row@));
                }
                txs.push(row);
            },
            None => {},
        }
        i += 1;
    }
    proof {
        assert(fetched@.take(i as int) =~= fetched@);
    }
    let hascode = code.0.len() > 0;
    let mut rawcode: Vec<String> = Vec::new();
    let mut contract: Option<ContractRecord> = None;
    proof {
        assert(texts(rawcode@) =~= Seq::<Seq<char>>::empty());
    }
    if hascode {
        push_hex_lines(&mut rawcode, "", code.0.as_slice());
        proof {
            reveal_strlit("");
            let pre = |line: Seq<char>| ""@ + line;
            assert(hex_lines(code.0@).map_values(pre) =~= hex_lines(code.0@)) by {
                assert forall|k: int| 0 <= k < hex_lines(code.0@).len() implies hex_lines(
                    code.0@,
                ).map_values(pre)[k] == hex_lines(code.0@)[k] by {
                    assert(""@ + hex_lines(code.0@)[k] =~= hex_lines(code.0@)[k]);
                }
            }
            assert(Seq::<Seq<char>>::empty() + hex_lines(code.0@) =~= hex_lines(code.0@));
        }
        contract = match db.get_contract(addr) {
            Some(found) => Some(found.duplicate()),
            None => None,
        };
    }
    AddrPage {
        address: hex_with_prefix("0x", addr.0.as_slice()),
        balance: Ether(*balance).html().text,
        txs,
        hascode,
        rawcode,
        contract,
    }
}

} // verus!
