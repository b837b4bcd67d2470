//! The page of the non-empty blocks.

use vstd::prelude::*;
use crate::db::{IndexStore, StoreView};
use crate::explorer::utils::{paginate, pagination};
use crate::render::{BlockId, HtmlRender, RenderError, TextWithLink, TextWithLinkView};
use crate::text::{decimal, decimal_digits};
use crate::types::BlockSummary;

verus! {

/// How many blocks a page lists.
pub const PAGE_SIZE: u64 = 15;

/// How many non-empty blocks are listed in all, over all pages.
pub const LISTED: u64 = 200;

/// One line of the page: a block.
#[derive(Debug)]
pub struct NebRow {
    pub block: TextWithLink,
    pub author: TextWithLink,
    pub tx_count: u64,
    pub timestamp: u64,
    /// How much of the gas limit was used, in percent.
    pub gas_used: String,
    /// The gas limit in millions, to one decimal.
    pub gas_limit: String,
}

/// The mathematical value of a [`NebRow`].
pub struct NebRowView {
    pub block: TextWithLinkView,
    pub author: TextWithLinkView,
    pub tx_count: u64,
    pub timestamp: u64,
    pub gas_used: Seq<char>,
    pub gas_limit: Seq<char>,
}

impl View for NebRow {
    type V = NebRowView;

    open spec fn view(&self) -> NebRowView {
        NebRowView {
            block: self.block@,
            author: self.author@,
            tx_count: self.tx_count,
            timestamp: self.timestamp,
            gas_used: self.gas_used@,
            gas_limit: self.gas_limit@,
        }
    }
}

/// The page: its blocks, how far the index has come, and the pages
/// around it. `next_page` and `prev_page` are 0 where there is no such
/// page.
#[derive(Debug)]
pub struct NebPage {
    pub last_indexed_block: u64,
    pub blocks: Vec<NebRow>,
    pub has_next_page: bool,
    pub next_page: u64,
    pub has_prev_page: bool,
    pub prev_page: u64,
}

/// How many of `count` non-empty blocks are listed.
pub open spec fn listed(count: nat) -> u64 {
    if count > LISTED {
        LISTED
    } else {
        count as u64
    }
}

/// The blocks that page `page_no` lists, of the non-empty blocks
/// `non_empty`.
pub open spec fn page_numbers(non_empty: Seq<u64>, page_no: u64) -> Seq<u64> {
    let pg = pagination(listed(non_empty.len()), PAGE_SIZE, page_no);
    non_empty.subrange(pg.from as int, pg.to as int)
}

/// How much of a gas limit was used, in whole percent.
pub open spec fn gas_used_text(used: u64, limit: u64) -> Seq<char> {
    decimal_digits((100 * used / (limit as int)) as nat) + "%"@
}

/// A gas limit in millions, to one decimal, cut off.
pub open spec fn gas_limit_text(limit: u64) -> Seq<char> {
    let tenths = limit as nat / 100_000;
    decimal_digits(tenths / 10) + "."@ + decimal_digits(tenths % 10) + "M"@
}

/// The line for block `number` with the summary `block`.
pub open spec fn row_of(number: u64, block: BlockSummary) -> NebRowView {
    NebRowView {
        block: BlockId(number).shown(),
        author: block.author.shown(),
        tx_count: block.tx_count,
        timestamp: block.timestamp,
        gas_used: gas_used_text(block.gas_used, block.gas_limit),
        gas_limit: gas_limit_text(block.gas_limit),
    }
}

/// Whether `fetched` holds a usable summary for each of the `count`
/// blocks of a page: the block itself, with a gas limit above zero.
pub open spec fn all_fetched(count: nat, fetched: Seq<Option<BlockSummary>>) -> bool {
    &&& fetched.len() >= count
    &&& forall|i: int|
        0 <= i < count ==> (#[trigger] fetched[i]) is Some && fetched[i]->0.gas_limit > 0
}

/// The blocks that page `page_no` lists: of the first 200 non-empty
/// blocks of the store, in ascending order, 15 to the page.
pub fn page_blocks(db: &IndexStore, page_no: u64) -> (numbers: Vec<u64>)
    requires
        db.wf(),
    ensures
        numbers@ == page_numbers(db@.non_empty, page_no),
{
    let count = db.count_non_empty_blocks();
    let limit: u64 = if count > LISTED as usize {
        LISTED
    } else {
        count as u64
    };
    let pg = paginate(limit, PAGE_SIZE, page_no);
    db.non_empty_blocks_page(pg.from as usize, (pg.to - pg.from) as usize)
}

/// The line for block `number` with the summary `block`.
fn row(number: u64, block: &BlockSummary) -> (out: NebRow)
    requires
        block.gas_limit > 0,
    ensures
        out@ == row_of(number, *block),
{
    let percent: u128 = (100 * (block.gas_used as u128)) / (block.gas_limit as u128);
    let mut gas_used = decimal(percent);
    gas_used.append("%");
    let tenths: u64 = block.gas_limit / 100_000;
    let mut gas_limit = decimal((tenths / 10) as u128);
    gas_limit.append(".");
    gas_limit.append(decimal((tenths % 10) as u128).as_str());
    gas_limit.append("M");
    NebRow {
        block: BlockId(number).html(),
        author: block.author.html(),
        tx_count: block.tx_count,
        timestamp: block.timestamp,
        gas_used,
        gas_limit,
    }
}

/// What is read from the store for one page, in one look: the blocks that
/// the page lists, how far the index has come, and the pages around it.
/// The page is put together from this and what the node gives for the
/// blocks, whatever the store has come to hold meanwhile.
#[derive(Debug)]
pub struct NebPlan {
    pub numbers: Vec<u64>,
    pub last_indexed_block: u64,
    pub next_page: Option<u64>,
    pub prev_page: Option<u64>,
}

/// Whether `plan` is what page `page_no` reads from `store`.
pub open spec fn plans(plan: NebPlan, store: StoreView, page_no: u64) -> bool {
    let pg = pagination(listed(store.non_empty.len()), PAGE_SIZE, page_no);
    &&& plan.numbers@ == page_numbers(store.non_empty, page_no)
    &&& plan.last_indexed_block == store.cursor
    &&& plan.next_page == pg.next_page
    &&& plan.prev_page == pg.prev_page
}

/// Reads from the store what page `page_no` of the non-empty blocks
/// needs.
pub fn plan(db: &IndexStore, page_no: u64) -> (plan: NebPlan)
    requires
        db.wf(),
    ensures
        plans(plan, db@, page_no),
{
    let count = db.count_non_empty_blocks();
    let limit: u64 = if count > LISTED as usize {
        LISTED
    } else {
        count as u64
    };
    let pg = paginate(limit, PAGE_SIZE, page_no);
    NebPlan {
        numbers: db.non_empty_blocks_page(pg.from as usize, (pg.to - pg.from) as usize),
        last_indexed_block: db.get_cursor(),
        next_page: pg.next_page,
        prev_page: pg.prev_page,
    }
}

/// Whether `r` is the page of `plan`, put together from `fetched`: what
/// the node gave for each block of the plan, in order. Where a block is
/// lacking, or has no gas limit, the page fails as unexpected. Else it
/// holds one line for each block, and the cursor and the pages around it
/// as the plan has them.
pub open spec fn plan_outcome(
    plan: NebPlan,
    fetched: Seq<Option<BlockSummary>>,
    r: Result<NebPage, RenderError>,
) -> bool {
    let numbers = plan.numbers@;
    if !all_fetched(numbers.len(), fetched) {
        r matches Err(RenderError::Unexpected)
    } else {
        &&& r matches Ok(page)
        &&& page.last_indexed_block == plan.last_indexed_block
        &&& page.blocks@.len() == numbers.len()
        &&& forall|i: int|
            0 <= i < numbers.len() ==> (#[trigger] page.blocks@[i])@ == row_of(
                numbers[i],
                fetched[i]->0,
            )
        &&& page.has_next_page == plan.next_page is Some
        &&& page.next_page == if plan.next_page is Some {
            plan.next_page->0
        } else {
            0
        }
        &&& page.has_prev_page == plan.prev_page is Some
        &&& page.prev_page == if plan.prev_page is Some {
            plan.prev_page->0
        } else {
            0
        }
    }
}

/// Puts together the page of `plan` from `fetched`: what the node gave
/// for each block of the plan, in order.
pub fn render_plan(plan: &NebPlan, fetched: &Vec<Option<BlockSummary>>) -> (r: Result<
    NebPage,
    RenderError,
>)
    ensures
        plan_outcome(*plan, fetched@, r),
{
    let numbers = &plan.numbers;
    if fetched.len() < numbers.len() {
        return Err(RenderError::Unexpected);
    }
    let mut blocks: Vec<NebRow> = Vec::new();
    let mut i: usize = 0;
    while i < numbers.len()
        invariant
            i <= numbers@.len() <= fetched@.len(),
            numbers@ == plan.numbers@,
            blocks@.len() == i,
            forall|j: int|
                0 <= j < i ==> (#[trigger] fetched@[j]) is Some && fetched@[j]->0.gas_limit > 0,
            forall|j: int|
                0 <= j < i ==> (#[trigger] blocks@[j])@ == row_of(numbers@[j], fetched@[j]->0),
        decreases numbers@.len() - i,
    {
        match &fetched[i] {
            Some(block) => {
                if block.gas_limit == 0 {
                    return Err(RenderError::Unexpected);
                }
                blocks.push(row(numbers[i], block));
            },
            None => {
                return Err(RenderError::Unexpected);
            },
        }
        i += 1;
    }
    Ok(
        NebPage {
            last_indexed_block: plan.last_indexed_block,
            blocks,
            has_next_page: plan.next_page.is_some(),
            next_page: match plan.next_page {
                Some(p) => p,
                None => 0,
            },
            has_prev_page: plan.prev_page.is_some(),
            prev_page: match plan.prev_page {
                Some(p) => p,
                None => 0,
            },
        },
    )
}

/// Whether `r` is the page `page_no` of the non-empty blocks of `store`,
/// put together from `fetched`: what the node gave for each block that
/// the page lists, in the order of [`page_numbers`]. Where a block is
/// lacking, or has no gas limit, the page fails as unexpected. Else it
/// holds one line for each block, the cursor of the store, and the pages
/// around it.
pub open spec fn page_outcome(
    store: StoreView,
    page_no: u64,
    fetched: Seq<Option<BlockSummary>>,
    r: Result<NebPage, RenderError>,
) -> bool {
    let numbers = page_numbers(store.non_empty, page_no);
    let pg = pagination(listed(store.non_empty.len()), PAGE_SIZE, page_no);
    if !all_fetched(numbers.len(), fetched) {
        r matches Err(RenderError::Unexpected)
    } else {
        &&& r matches Ok(page)
        &&& page.last_indexed_block == store.cursor
        &&& page.blocks@.len() == numbers.len()
        &&& forall|i: int|
            0 <= i < numbers.len() ==> (#[trigger] page.blocks@[i])@ == row_of(
                numbers[i],
                fetched[i]->0,
            )
        &&& page.has_next_page == pg.next_page is Some
        &&& page.next_page == if pg.next_page is Some {
            pg.next_page->0
        } else {
            0
        }
        &&& page.has_prev_page == pg.prev_page is Some
        &&& page.prev_page == if pg.prev_page is Some {
            pg.prev_page->0
        } else {
            0
        }
    }
}

/// Puts together page `page_no` of the non-empty blocks from `fetched`:
/// what the node gave for each block of [`page_blocks`], in that order.
/// The store is read once more here: where blocks are fetched between
/// two looks at a store that is written meanwhile, [`plan`] and
/// [`render_plan`] keep to one look.
pub fn render(db: &IndexStore, page_no: u64, fetched: &Vec<Option<BlockSummary>>) -> (r: Result<
    NebPage,
    RenderError,
>)
    requires
        db.wf(),
    ensures
        page_outcome(db@, page_no, fetched@, r),
{
    let plan = plan(db, page_no);
    render_plan(&plan, fetched)
}

} // verus!
