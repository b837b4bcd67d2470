//! The scanner: what one block writes to the index store, and the state
//! machine that walks the chain one block at a time.
//!
//! The scanner itself does no waiting and talks to no node. Each call of
//! [`Scanner::step`] takes the outcome of the last action and answers with
//! the next one; whoever drives it performs the action.

use vstd::prelude::*;
use crate::db::{with_block, IndexStore, IndexWrite, StorageError, StoreView};
use crate::types::{Address, Log, Receipt, Transaction, H256};

verus! {

/// What the scanner reads of one transaction.
#[derive(Debug)]
pub struct TxActivity {
    pub hash: H256,
    pub from: Address,
    /// The recipient; `None` for a contract creation.
    pub to: Option<Address>,
    /// The emitter of each log of the receipt, in order; empty where the
    /// transaction has no receipt.
    pub log_addresses: Vec<Address>,
}

/// The mathematical value of a [`TxActivity`].
pub struct TxActivityView {
    pub hash: H256,
    pub from: Address,
    pub to: Option<Address>,
    pub log_addresses: Seq<Address>,
}

impl View for TxActivity {
    type V = TxActivityView;

    open spec fn view(&self) -> TxActivityView {
        TxActivityView {
            hash: self.hash,
            from: self.from,
            to: self.to,
            log_addresses: self.log_addresses@,
        }
    }
}

impl TxActivityView {
    /// The addresses that took part: the sender, the recipient if there is
    /// one, then the emitter of each log.
    pub open spec fn participants(self) -> Seq<Address> {
        let ends = match self.to {
            Some(to) => seq![self.from, to],
            None => seq![self.from],
        };
        ends + self.log_addresses
    }
}

impl TxActivity {
    /// What the scanner reads of `tx` with the receipt `receipt`: the
    /// sender, the recipient, and the emitter of each log of the receipt.
    /// A transaction without receipt has no logs.
    pub fn new(tx: &Transaction, receipt: Option<&Receipt>) -> (activity: TxActivity)
        ensures
            activity.hash == tx.hash,
            activity.from == tx.from,
            activity.to == tx.to,
            activity.log_addresses@ == match receipt {
                Some(receipt) => receipt.logs@.map_values(|log: Log| log.address),
                None => Seq::empty(),
            },
    {
        let mut log_addresses: Vec<Address> = Vec::new();
        match receipt {
            Some(receipt) => {
                let mut i: usize = 0;
                while i < receipt.logs.len()
                    invariant
                        i <= receipt.logs@.len(),
                        log_addresses@ == receipt.logs@.take(i as int).map_values(
                            |log: Log| log.address,
                        ),
                    decreases receipt.logs@.len() - i,
                {
                    log_addresses.push(receipt.logs[i].address);
                    proof {
                        assert(log_addresses@ =~= receipt.logs@.take(i + 1).map_values(
                            |log: Log| log.address,
                        ));
                    }
                    i += 1;
                }
                proof {
                    assert(receipt.logs@.take(i as int) =~= receipt.logs@);
                }
            },
            None => {},
        }
        TxActivity { hash: tx.hash, from: tx.from, to: tx.to, log_addresses }
    }
}

/// What the scanner reads of one block: its transactions, in order.
#[derive(Debug)]
pub struct BlockActivity {
    pub transactions: Vec<TxActivity>,
}

impl View for BlockActivity {
    type V = Seq<TxActivityView>;

    open spec fn view(&self) -> Seq<TxActivityView> {
        Seq::new(self.transactions@.len(), |i: int| self.transactions@[i]@)
    }
}

/// The store after `tx` was recorded for each of `addresses`, in order.
pub open spec fn record_all(s: StoreView, addresses: Seq<Address>, tx: H256) -> StoreView
    decreases addresses.len(),
{
    if addresses.len() == 0 {
        s
    } else {
        record_all(s, addresses.drop_last(), tx).record_activity(addresses.last(), tx)
    }
}

/// The store after each of `txs` was recorded for its participants, in
/// order.
pub open spec fn index_txs(s: StoreView, txs: Seq<TxActivityView>) -> StoreView
    decreases txs.len(),
{
    if txs.len() == 0 {
        s
    } else {
        record_all(index_txs(s, txs.drop_last()), txs.last().participants(), txs.last().hash)
    }
}

/// The store after the index writes of block `n`: the activity of each
/// transaction, and the block itself where it holds any. The cursor stays.
pub open spec fn index_block(s: StoreView, n: u64, block: Seq<TxActivityView>) -> StoreView {
    let t = index_txs(s, block);
    if block.len() > 0 {
        t.record_non_empty(n)
    } else {
        t
    }
}

/// Recording for one more address comes after the others.
proof fn lemma_record_all_push(s: StoreView, addresses: Seq<Address>, a: Address, tx: H256)
    ensures
        record_all(s, addresses.push(a), tx) == record_all(s, addresses, tx).record_activity(a, tx),
{
    assert(addresses.push(a).drop_last() =~= addresses);
}

/// Writes to `store` the activity of one transaction.
fn index_tx(store: &mut IndexStore, tx: &TxActivity)
    requires
        old(store).wf(),
    ensures
        final(store).wf(),
        final(store)@ == record_all(old(store)@, tx@.participants(), tx.hash),
{
    let ghost start = store@;
    let ghost ends = match tx.to {
        Some(to) => seq![tx.from, to],
        None => seq![tx.from],
    };
    store.record_address_activity(tx.from, tx.hash);
    proof {
        lemma_record_all_push(start, Seq::empty(), tx.from, tx.hash);
        assert(Seq::<Address>::empty().push(tx.from) =~= seq![tx.from]);
    }
    match tx.to {
        Some(to) => {
            store.record_address_activity(to, tx.hash);
            proof {
                lemma_record_all_push(start, seq![tx.from], to, tx.hash);
                assert(seq![tx.from].push(to) =~= seq![tx.from, to]);
            }
        },
        None => {},
    }
    assert(store@ == record_all(start, ends, tx.hash));
    assert(ends + tx.log_addresses@.take(0) =~= ends);
    let mut i: usize = 0;
    while i < tx.log_addresses.len()
        invariant
            store.wf(),
            i <= tx.log_addresses@.len(),
            store@ == record_all(start, ends + tx.log_addresses@.take(i as int), tx.hash),
        decreases tx.log_addresses@.len() - i,
    {
        store.record_address_activity(tx.log_addresses[i], tx.hash);
        proof {
            let before = ends + tx.log_addresses@.take(i as int);
            lemma_record_all_push(start, before, tx.log_addresses@[i as int], tx.hash);
            assert(before.push(tx.log_addresses@[i as int]) =~= ends + tx.log_addresses@.take(i + 1));
        }
        i += 1;
    }
    proof {
        assert(tx.log_addresses@.take(i as int) =~= tx.log_addresses@);
        assert(ends + tx.log_addresses@ =~= tx@.participants());
    }
}

/// Writes to `store` what block `n` adds to the indices: for every
/// transaction, its hash in the history of each participant, and the block
/// number where the block holds a transaction. The cursor is left alone.
pub fn index_block_writes(store: &mut IndexStore, n: u64, block: &BlockActivity)
    requires
        old(store).wf(),
    ensures
        final(store).wf(),
        final(store)@ == index_block(old(store)@, n, block@),
        final(store)@.cursor == old(store)@.cursor,
{
    let ghost start = store@;
    let mut i: usize = 0;
    while i < block.transactions.len()
        invariant
            store.wf(),
            i <= block.transactions@.len(),
            store@ == index_txs(start, block@.take(i as int)),
        decreases block.transactions@.len() - i,
    {
        index_tx(store, &block.transactions[i]);
        proof {
            assert(block@.take(i + 1).drop_last() =~= block@.take(i as int));
            assert(block@.take(i + 1).last() == block.transactions@[i as int]@);
        }
        i += 1;
    }
    proof {
        assert(block@.take(i as int) =~= block@);
        lemma_index_txs_keeps_cursor(start, block@);
    }
    if block.transactions.len() > 0 {
        store.record_non_empty_block(n);
    }
}

/// Recording activity leaves the cursor, the non-empty blocks and the
/// contracts alone.
pub proof fn lemma_record_all_keeps_rest(s: StoreView, addresses: Seq<Address>, tx: H256)
    ensures
        record_all(s, addresses, tx).cursor == s.cursor,
        record_all(s, addresses, tx).non_empty == s.non_empty,
        record_all(s, addresses, tx).contracts == s.contracts,
    decreases addresses.len(),
{
    if addresses.len() > 0 {
        lemma_record_all_keeps_rest(s, addresses.drop_last(), tx);
    }
}

/// Indexing transactions leaves the cursor, the non-empty blocks and the
/// contracts alone.
pub proof fn lemma_index_txs_keeps_cursor(s: StoreView, txs: Seq<TxActivityView>)
    ensures
        index_txs(s, txs).cursor == s.cursor,
        index_txs(s, txs).non_empty == s.non_empty,
        index_txs(s, txs).contracts == s.contracts,
    decreases txs.len(),
{
    if txs.len() > 0 {
        lemma_index_txs_keeps_cursor(s, txs.drop_last());
        lemma_record_all_keeps_rest(
            index_txs(s, txs.drop_last()),
            txs.last().participants(),
            txs.last().hash,
        );
    }
}

/// Whether `s` holds `tx` in the history of each of `addresses`.
pub open spec fn holds_all(s: StoreView, addresses: Seq<Address>, tx: H256) -> bool {
    forall|i: int| 0 <= i < addresses.len() ==> s.history(#[trigger] addresses[i]).contains(tx)
}

/// Whether `s` holds every transaction of `txs` in the history of each of
/// its participants.
pub open spec fn covers(s: StoreView, txs: Seq<TxActivityView>) -> bool {
    forall|i: int|
        0 <= i < txs.len() ==> holds_all(s, (#[trigger] txs[i]).participants(), txs[i].hash)
}

/// Whether every history of `s` is carried over to `t`: what `s` holds for
/// an address, `t` holds for it too.
pub open spec fn extends(s: StoreView, t: StoreView) -> bool {
    forall|a: Address, x: H256| s.history(a).contains(x) ==> #[trigger] t.history(a).contains(x)
}

/// Recording a pair removes nothing, and the pair is held afterwards.
pub proof fn lemma_record_activity_extends(s: StoreView, a: Address, x: H256)
    ensures
        extends(s, s.record_activity(a, x)),
        s.record_activity(a, x).history(a).contains(x),
{
    let t = s.record_activity(a, x);
    if !s.history(a).contains(x) {
        let grown = s.history(a).push(x);
        assert(t.history(a) == grown);
        assert(grown[s.history(a).len() as int] == x);
        assert forall|b: Address, y: H256| s.history(b).contains(y) implies #[trigger] t.history(
            b,
        ).contains(y) by {
            if b == a {
                let i = choose|i: int| 0 <= i < s.history(a).len() && s.history(a)[i] == y;
                assert(grown[i] == y);
            } else {
                assert(t.history(b) == s.history(b));
            }
        }
    }
}

/// Recording a transaction for some addresses removes nothing, and each of
/// them holds it afterwards.
pub proof fn lemma_record_all_extends(s: StoreView, addresses: Seq<Address>, tx: H256)
    ensures
        extends(s, record_all(s, addresses, tx)),
        holds_all(record_all(s, addresses, tx), addresses, tx),
    decreases addresses.len(),
{
    if addresses.len() > 0 {
        let mid = record_all(s, addresses.drop_last(), tx);
        let end = mid.record_activity(addresses.last(), tx);
        lemma_record_all_extends(s, addresses.drop_last(), tx);
        lemma_record_activity_extends(mid, addresses.last(), tx);
        assert forall|a: Address, x: H256| s.history(a).contains(x) implies #[trigger] end.history(
            a,
        ).contains(x) by {
            assert(mid.history(a).contains(x));
        }
        assert forall|i: int| 0 <= i < addresses.len() implies end.history(
            #[trigger] addresses[i],
        ).contains(tx) by {
            if i < addresses.len() - 1 {
                assert(addresses.drop_last()[i] == addresses[i]);
                assert(mid.history(addresses[i]).contains(tx));
            }
        }
    }
}

/// Indexing transactions removes nothing, and the store covers them
/// afterwards.
pub proof fn lemma_index_txs_extends(s: StoreView, txs: Seq<TxActivityView>)
    ensures
        extends(s, index_txs(s, txs)),
        covers(index_txs(s, txs), txs),
    decreases txs.len(),
{
    if txs.len() > 0 {
        let mid = index_txs(s, txs.drop_last());
        let end = index_txs(s, txs);
        lemma_index_txs_extends(s, txs.drop_last());
        lemma_record_all_extends(mid, txs.last().participants(), txs.last().hash);
        assert forall|a: Address, x: H256| s.history(a).contains(x) implies #[trigger] end.history(
            a,
        ).contains(x) by {
            assert(mid.history(a).contains(x));
        }
        assert forall|i: int| 0 <= i < txs.len() implies holds_all(
            end,
            (#[trigger] txs[i]).participants(),
            txs[i].hash,
        ) by {
            if i < txs.len() - 1 {
                assert(txs.drop_last()[i] == txs[i]);
                assert(holds_all(mid, txs[i].participants(), txs[i].hash));
                let p = txs[i].participants();
                assert forall|j: int| 0 <= j < p.len() implies end.history(#[trigger] p[j]).contains(
                    txs[i].hash,
                ) by {
                    assert(mid.history(p[j]).contains(txs[i].hash));
                }
            }
        }
    }
}

/// Recording what the store holds already changes nothing.
pub proof fn lemma_record_all_held(s: StoreView, addresses: Seq<Address>, tx: H256)
    requires
        holds_all(s, addresses, tx),
    ensures
        record_all(s, addresses, tx) == s,
    decreases addresses.len(),
{
    if addresses.len() > 0 {
        assert forall|i: int| 0 <= i < addresses.drop_last().len() implies s.history(
            #[trigger] addresses.drop_last()[i],
        ).contains(tx) by {
            assert(addresses.drop_last()[i] == addresses[i]);
        }
        lemma_record_all_held(s, addresses.drop_last(), tx);
        assert(s.history(addresses[addresses.len() - 1]).contains(tx));
    }
}

/// Indexing transactions that the store covers already changes nothing.
pub proof fn lemma_index_txs_covered(s: StoreView, txs: Seq<TxActivityView>)
    requires
        covers(s, txs),
    ensures
        index_txs(s, txs) == s,
    decreases txs.len(),
{
    if txs.len() > 0 {
        assert forall|i: int| 0 <= i < txs.drop_last().len() implies holds_all(
            s,
            (#[trigger] txs.drop_last()[i]).participants(),
            txs.drop_last()[i].hash,
        ) by {
            assert(txs.drop_last()[i] == txs[i]);
        }
        lemma_index_txs_covered(s, txs.drop_last());
        assert(holds_all(s, txs[txs.len() - 1].participants(), txs[txs.len() - 1].hash));
        lemma_record_all_held(s, txs.last().participants(), txs.last().hash);
    }
}

/// A block that was recorded as non-empty is a member, and recording it
/// again changes nothing.
pub proof fn lemma_with_block_idempotent(s: Seq<u64>, n: u64)
    ensures
        with_block(s, n).contains(n),
        with_block(with_block(s, n), n) == with_block(s, n),
{
    if !s.contains(n) {
        let below = s.filter(|x: u64| x < n);
        assert(with_block(s, n)[below.len() as int] == n);
    }
}

/// Indexing is idempotent: the index writes of a block, made a second
/// time, leave the store exactly as the first time did. So a scanner that
/// stopped in the middle of a block, or after it and before the cursor
/// moved, may process the block again: every history and the list of
/// non-empty blocks read the same as after one pass.
pub proof fn lemma_index_block_idempotent(s: StoreView, n: u64, block: Seq<TxActivityView>)
    ensures
        index_block(index_block(s, n, block), n, block) == index_block(s, n, block),
        forall|a: Address|
            index_block(index_block(s, n, block), n, block).history(a) == index_block(
                s,
                n,
                block,
            ).history(a),
        index_block(index_block(s, n, block), n, block).non_empty == index_block(
            s,
            n,
            block,
        ).non_empty,
{
    let once = index_block(s, n, block);
    let txs_once = index_txs(s, block);
    lemma_index_txs_extends(s, block);
    assert(covers(once, block)) by {
        assert forall|i: int| 0 <= i < block.len() implies holds_all(
            once,
            (#[trigger] block[i]).participants(),
            block[i].hash,
        ) by {
            assert(holds_all(txs_once, block[i].participants(), block[i].hash));
            let p = block[i].participants();
            assert forall|j: int| 0 <= j < p.len() implies once.history(#[trigger] p[j]).contains(
                block[i].hash,
            ) by {
                assert(txs_once.history(p[j]).contains(block[i].hash));
            }
        }
    }
    lemma_index_txs_covered(once, block);
    lemma_with_block_idempotent(txs_once.non_empty, n);
}

/// A pass over a block that stopped part of the way, followed by a full
/// pass, leaves the store as one full pass does: whatever prefix of the
/// transactions was written before the stop.
pub proof fn lemma_replay_after_partial_pass(
    s: StoreView,
    n: u64,
    block: Seq<TxActivityView>,
    done: int,
)
    requires
        0 <= done <= block.len(),
    ensures
        index_block(index_txs(s, block.take(done)), n, block) == index_block(s, n, block),
    decreases block.len() - done,
{
    lemma_index_txs_prefix_replay(s, block, done, block.len() as int);
    assert(block.take(block.len() as int) =~= block);
}

/// Indexing the first `k` transactions again after the first `done` of
/// them were indexed gives what indexing the first `k` once gives.
proof fn lemma_index_txs_prefix_replay(s: StoreView, block: Seq<TxActivityView>, done: int, k: int)
    requires
        0 <= done <= k <= block.len(),
    ensures
        index_txs(index_txs(s, block.take(done)), block.take(k)) == index_txs(s, block.take(k)),
    decreases k - done,
{
    let partial = index_txs(s, block.take(done));
    if k == done {
        lemma_index_txs_extends(s, block.take(done));
        lemma_index_txs_covered(partial, block.take(done));
    } else {
        lemma_index_txs_prefix_replay(s, block, done, k - 1);
        assert(block.take(k).drop_last() =~= block.take(k - 1));
    }
}

/// Where the scanner stands.
#[derive(Clone, Copy, Debug, PartialEq, Eq)]
pub enum ScanState {
    /// Started, no iteration begun yet.
    Idle,
    /// Working on the block at the cursor.
    Scanning,
    /// The cursor is past the node's head: waiting for the chain to grow.
    WaitingForHead,
    /// The stop signal was seen. Nothing follows.
    Stopped,
}

/// What the driver is to do next. Each action but the last two is answered
/// with one event.
#[derive(Clone, Copy, Debug, PartialEq, Eq)]
pub enum ScanAction {
    /// Read the stop signal and answer with [`ScanEvent::Tick`].
    Next,
    /// Ask the node for its head height and answer with
    /// [`ScanEvent::Head`].
    QueryHead,
    /// Fetch this block with its transactions and their receipts and answer
    /// with [`ScanEvent::Block`].
    FetchBlock(u64),
    /// Wait for this many milliseconds and answer with
    /// [`ScanEvent::Woke`].
    Sleep(u64),
    /// Leave the loop: the stop signal was seen.
    Exit,
    /// Leave the loop: the store refused a write. The cursor still names
    /// the last block that was not completed.
    Abort(StorageError),
}

/// What the node gave for a block.
#[derive(Debug)]
pub enum FetchedBlock {
    /// The request failed.
    Failed,
    /// The node has no block at that height.
    Missing,
    /// The block.
    Found(BlockActivity),
}

/// The outcome of an action.
#[derive(Debug)]
pub enum ScanEvent {
    /// The stop signal as it was read.
    Tick { stop: bool },
    /// The node's head height; `None` where the request failed.
    Head(Option<u64>),
    /// The block that was asked for.
    Block(FetchedBlock),
    /// The wait is over.
    Woke,
}

/// The mathematical value of a [`ScanEvent`].
pub enum ScanEventView {
    Tick { stop: bool },
    Head(Option<u64>),
    BlockFailed,
    BlockMissing,
    BlockFound(Seq<TxActivityView>),
    Woke,
}

impl View for ScanEvent {
    type V = ScanEventView;

    open spec fn view(&self) -> ScanEventView {
        match *self {
            ScanEvent::Tick { stop } => ScanEventView::Tick { stop },
            ScanEvent::Head(h) => ScanEventView::Head(h),
            ScanEvent::Block(FetchedBlock::Failed) => ScanEventView::BlockFailed,
            ScanEvent::Block(FetchedBlock::Missing) => ScanEventView::BlockMissing,
            ScanEvent::Block(FetchedBlock::Found(b)) => ScanEventView::BlockFound(b@),
            ScanEvent::Woke => ScanEventView::Woke,
        }
    }
}

/// `base` doubled `times` times.
pub open spec fn doubled(base: nat, times: nat) -> nat
    decreases times,
{
    if times == 0 {
        base
    } else {
        2 * doubled(base, (times - 1) as nat)
    }
}

/// The wait after `failures` failures in a row, the present one not
/// counted: `base` milliseconds doubled for each of them, and `max` at
/// most.
pub open spec fn backoff_delay(base: u64, max: u64, failures: u32) -> u64 {
    let d = doubled(base as nat, failures as nat);
    if d < max {
        d as u64
    } else {
        max
    }
}

/// Doubling more often gives no less.
pub proof fn lemma_doubled_monotone(base: nat, i: nat, j: nat)
    requires
        i <= j,
    ensures
        doubled(base, i) <= doubled(base, j),
    decreases j,
{
    if i < j {
        lemma_doubled_monotone(base, i, (j - 1) as nat);
    }
}

/// The wait after `failures` failures in a row.
pub fn backoff_delay_ms(base: u64, max: u64, failures: u32) -> (delay: u64)
    ensures
        delay == backoff_delay(base, max, failures),
        delay <= max,
{
    if base == 0 {
        proof {
            lemma_doubled_zero(failures as nat);
        }
        return 0;
    }
    let mut delay: u64 = if base < max { base } else { max };
    let mut i: u32 = 0;
    while i < failures && delay < max
        invariant
            i <= failures,
            base > 0,
            delay == backoff_delay(base, max, i),
        decreases failures - i,
    {
        delay = if delay > max - delay { max } else { 2 * delay };
        i += 1;
    }
    proof {
        if i < failures {
            lemma_doubled_monotone(base as nat, i as nat, failures as nat);
        }
    }
    delay
}

/// Nothing, doubled, is nothing.
proof fn lemma_doubled_zero(times: nat)
    ensures
        doubled(0, times) == 0,
    decreases times,
{
    if times > 0 {
        lemma_doubled_zero((times - 1) as nat);
    }
}

/// The scanner: its state, the action whose outcome it awaits, and how
/// many requests to the node failed in a row.
#[derive(Clone, Copy, Debug, PartialEq, Eq)]
pub struct Scanner {
    pub state: ScanState,
    /// The action that was handed out last.
    pub pending: ScanAction,
    /// Failed requests in a row.
    pub failures: u32,
    /// How long to wait for the chain to grow, in milliseconds.
    pub poll_ms: u64,
    /// The wait after a first failed request, in milliseconds.
    pub backoff_base_ms: u64,
    /// The longest wait after a failed request, in milliseconds.
    pub backoff_max_ms: u64,
}

/// What a step gives: the scanner and the store after it, and the action
/// for the driver.
pub struct Step {
    pub scanner: Scanner,
    pub store: StoreView,
    pub action: ScanAction,
}

impl Scanner {
    /// The scanner with `action` handed out.
    pub open spec fn awaiting(self, action: ScanAction) -> Scanner {
        Scanner { pending: action, ..self }
    }

    /// The scanner after one more failed request: it waits, longer each
    /// time.
    pub open spec fn after_failure(self) -> Scanner {
        Scanner {
            pending: ScanAction::Sleep(
                backoff_delay(self.backoff_base_ms, self.backoff_max_ms, self.failures),
            ),
            failures: if self.failures < u32::MAX {
                (self.failures + 1) as u32
            } else {
                u32::MAX
            },
            ..self
        }
    }

    /// One step of the scanner over store `s` on `event`.
    ///
    /// A stopped scanner stays stopped. An event that does not answer the
    /// pending action is ignored and the action is handed out again. At
    /// the start of an iteration the stop signal alone decides between
    /// stopping and asking for the head. With the head known, the scanner
    /// waits where the cursor is past it and asks for the block at the
    /// cursor otherwise. A failed request and a missing block are tried
    /// again after a wait, with nothing written. A block that was found
    /// is indexed, and then the cursor moves on by one.
    pub open spec fn step_spec(self, s: StoreView, event: ScanEventView) -> Step {
        if self.state == ScanState::Stopped {
            Step { scanner: self.awaiting(ScanAction::Exit), store: s, action: ScanAction::Exit }
        } else {
            match (self.pending, event) {
                (ScanAction::Next, ScanEventView::Tick { stop }) => {
                    if stop {
                        Step {
                            scanner: Scanner {
                                state: ScanState::Stopped,
                                pending: ScanAction::Exit,
                                ..self
                            },
                            store: s,
                            action: ScanAction::Exit,
                        }
                    } else {
                        Step {
                            scanner: Scanner {
                                state: ScanState::Scanning,
                                pending: ScanAction::QueryHead,
                                ..self
                            },
                            store: s,
                            action: ScanAction::QueryHead,
                        }
                    }
                },
                (ScanAction::QueryHead, ScanEventView::Head(None)) => {
                    Step { scanner: self.after_failure(), store: s, action: self.after_failure().pending }
                },
                (ScanAction::QueryHead, ScanEventView::Head(Some(head))) => {
                    if s.cursor > head {
                        Step {
                            scanner: Scanner {
                                state: ScanState::WaitingForHead,
                                pending: ScanAction::Sleep(self.poll_ms),
                                failures: 0,
                                ..self
                            },
                            store: s,
                            action: ScanAction::Sleep(self.poll_ms),
                        }
                    } else {
                        Step {
                            scanner: Scanner {
                                state: ScanState::Scanning,
                                pending: ScanAction::FetchBlock(s.cursor),
                                failures: 0,
                                ..self
                            },
                            store: s,
                            action: ScanAction::FetchBlock(s.cursor),
                        }
                    }
                },
                (ScanAction::FetchBlock(_), ScanEventView::BlockFailed) => {
                    Step { scanner: self.after_failure(), store: s, action: self.after_failure().pending }
                },
                (ScanAction::FetchBlock(_), ScanEventView::BlockMissing) => {
                    Step { scanner: self.after_failure(), store: s, action: self.after_failure().pending }
                },
                (ScanAction::FetchBlock(n), ScanEventView::BlockFound(block)) => {
                    if n != s.cursor {
                        Step { scanner: self.awaiting(ScanAction::Next), store: s, action: ScanAction::Next }
                    } else if n == u64::MAX {
                        Step {
                            scanner: self.awaiting(ScanAction::Abort(StorageError::CursorExhausted)),
                            store: index_block(s, n, block),
                            action: ScanAction::Abort(StorageError::CursorExhausted),
                        }
                    } else {
                        Step {
                            scanner: Scanner { pending: ScanAction::Next, failures: 0, ..self },
                            store: index_block(s, n, block).advance((n + 1) as u64),
                            action: ScanAction::Next,
                        }
                    }
                },
                (ScanAction::Sleep(_), ScanEventView::Woke) => {
                    Step {
                        scanner: self.awaiting(ScanAction::QueryHead),
                        store: s,
                        action: ScanAction::QueryHead,
                    }
                },
                _ => Step { scanner: self, store: s, action: self.pending },
            }
        }
    }

    /// A scanner that has not begun: idle, and about to read the stop
    /// signal.
    pub open spec fn fresh(poll_ms: u64, backoff_base_ms: u64, backoff_max_ms: u64) -> Scanner {
        Scanner {
            state: ScanState::Idle,
            pending: ScanAction::Next,
            failures: 0,
            poll_ms,
            backoff_base_ms,
            backoff_max_ms,
        }
    }

    /// A scanner that has not begun.
    pub fn new(poll_ms: u64, backoff_base_ms: u64, backoff_max_ms: u64) -> (scanner: Scanner)
        ensures
            scanner == Scanner::fresh(poll_ms, backoff_base_ms, backoff_max_ms),
    {
        Scanner {
            state: ScanState::Idle,
            pending: ScanAction::Next,
            failures: 0,
            poll_ms,
            backoff_base_ms,
            backoff_max_ms,
        }
    }

    /// Notes one more failed request and hands out the wait.
    fn fail(&mut self) -> (action: ScanAction)
        ensures
            *final(self) == old(self).after_failure(),
            action == old(self).after_failure().pending,
    {
        let delay = backoff_delay_ms(self.backoff_base_ms, self.backoff_max_ms, self.failures);
        if self.failures < u32::MAX {
            self.failures = self.failures + 1;
        }
        self.pending = ScanAction::Sleep(delay);
        self.pending
    }

    /// Takes the outcome of the pending action, writes to `store` what it
    /// calls for, and answers with the next action.
    pub fn step(&mut self, store: &mut IndexStore, event: ScanEvent) -> (action: ScanAction)
        requires
            old(store).wf(),
        ensures
            final(store).wf(),
            *final(self) == old(self).step_spec(old(store)@, event@).scanner,
            final(store)@ == old(self).step_spec(old(store)@, event@).store,
            action == old(self).step_spec(old(store)@, event@).action,
    {
        if let ScanState::Stopped = self.state {
            self.pending = ScanAction::Exit;
            return ScanAction::Exit;
        }
        match (self.pending, event) {
            (ScanAction::Next, ScanEvent::Tick { stop }) => {
                if stop {
                    self.state = ScanState::Stopped;
                    self.pending = ScanAction::Exit;
                } else {
                    self.state = ScanState::Scanning;
                    self.pending = ScanAction::QueryHead;
                }
            },
            (ScanAction::QueryHead, ScanEvent::Head(None)) => {
                self.fail();
            },
            (ScanAction::QueryHead, ScanEvent::Head(Some(head))) => {
                let cursor = store.get_cursor();
                self.failures = 0;
                if cursor > head {
                    self.state = ScanState::WaitingForHead;
                    self.pending = ScanAction::Sleep(self.poll_ms);
                } else {
                    self.state = ScanState::Scanning;
                    self.pending = ScanAction::FetchBlock(cursor);
                }
            },
            (ScanAction::FetchBlock(_), ScanEvent::Block(FetchedBlock::Failed)) => {
                self.fail();
            },
            (ScanAction::FetchBlock(_), ScanEvent::Block(FetchedBlock::Missing)) => {
                self.fail();
            },
            (ScanAction::FetchBlock(n), ScanEvent::Block(FetchedBlock::Found(block))) => {
                if n != store.get_cursor() {
                    self.pending = ScanAction::Next;
                } else {
                    index_block_writes(store, n, &block);
                    if n == u64::MAX {
                        self.pending = ScanAction::Abort(StorageError::CursorExhausted);
                    } else {
                        match store.advance_cursor(n + 1) {
                            Ok(()) => {
                                self.failures = 0;
                                self.pending = ScanAction::Next;
                            },
                            Err(refused) => {
                                self.pending = ScanAction::Abort(refused);
                            },
                        }
                    }
                }
            },
            (ScanAction::Sleep(_), ScanEvent::Woke) => {
                self.pending = ScanAction::QueryHead;
            },
            _ => {},
        }
        self.pending
    }
}

/// The stop signal is the only way into [`ScanState::Stopped`], and there
/// is no way out of it.
pub proof fn lemma_stopped_by_signal_only(sc: Scanner, s: StoreView, event: ScanEventView)
    ensures
        sc.state == ScanState::Stopped ==> sc.step_spec(s, event).scanner.state == ScanState::Stopped
            && sc.step_spec(s, event).action == ScanAction::Exit,
        sc.state != ScanState::Stopped ==> (sc.step_spec(s, event).scanner.state
            == ScanState::Stopped <==> sc.pending == ScanAction::Next && event
            == ScanEventView::Tick { stop: true }),
{
}

/// A step never moves the cursor back, and moves it on by one exactly
/// where it indexed the block at the cursor. Any other step leaves the
/// whole store as it was, but for the last block there is: that one is
/// indexed and the cursor stays.
pub proof fn lemma_step_moves_cursor_by_one(sc: Scanner, s: StoreView, event: ScanEventView)
    ensures
        ({
            let after = sc.step_spec(s, event);
            let indexes = sc.state != ScanState::Stopped && sc.pending == ScanAction::FetchBlock(
                s.cursor,
            ) && event is BlockFound;
            &&& after.store.cursor >= s.cursor
            &&& indexes && s.cursor < u64::MAX ==> after.store.cursor == s.cursor + 1
                && after.store == index_block(s, s.cursor, event->BlockFound_0).advance(
                (s.cursor + 1) as u64,
            )
            &&& indexes && s.cursor == u64::MAX ==> after.store == index_block(
                s,
                s.cursor,
                event->BlockFound_0,
            )
            &&& !indexes ==> after.store == s
        }),
{
    if event is BlockFound {
        lemma_index_txs_keeps_cursor(s, event->BlockFound_0);
    }
}

/// Whether `t` holds the pending changes of `s` and, after them, index
/// writes only: activity and non-empty blocks.
pub open spec fn adds_index_writes(s: StoreView, t: StoreView) -> bool {
    &&& s.pending.len() <= t.pending.len()
    &&& t.pending.take(s.pending.len() as int) == s.pending
    &&& forall|i: int|
        s.pending.len() <= i < t.pending.len() ==> (#[trigger] t.pending[i]) is Activity
            || t.pending[i] is NonEmptyBlock
}

/// Index writes after index writes are index writes.
proof fn lemma_adds_index_writes_chain(s: StoreView, t: StoreView, u: StoreView)
    requires
        adds_index_writes(s, t),
        adds_index_writes(t, u),
    ensures
        adds_index_writes(s, u),
{
    assert(u.pending.take(s.pending.len() as int) =~= t.pending.take(s.pending.len() as int)) by {
        assert(u.pending.take(t.pending.len() as int) == t.pending);
        assert forall|i: int| 0 <= i < s.pending.len() implies u.pending[i] == t.pending[i] by {
            assert(u.pending.take(t.pending.len() as int)[i] == t.pending[i]);
        }
    }
    assert forall|i: int| s.pending.len() <= i < u.pending.len() implies (#[trigger] u.pending[i])
        is Activity || u.pending[i] is NonEmptyBlock by {
        if i < t.pending.len() {
            assert(u.pending.take(t.pending.len() as int)[i] == t.pending[i]);
        }
    }
}

/// Recording activity leaves index writes pending, and nothing else.
proof fn lemma_record_all_pending(s: StoreView, addresses: Seq<Address>, tx: H256)
    ensures
        adds_index_writes(s, record_all(s, addresses, tx)),
    decreases addresses.len(),
{
    if addresses.len() > 0 {
        let mid = record_all(s, addresses.drop_last(), tx);
        let end = mid.record_activity(addresses.last(), tx);
        lemma_record_all_pending(s, addresses.drop_last(), tx);
        assert(adds_index_writes(mid, end)) by {
            assert(end.pending.take(mid.pending.len() as int) =~= mid.pending);
        }
        lemma_adds_index_writes_chain(s, mid, end);
    } else {
        assert(s.pending.take(s.pending.len() as int) =~= s.pending);
    }
}

/// The index writes of a block leave index writes pending, and nothing
/// else: no move of the cursor among them.
pub proof fn lemma_index_block_pending(s: StoreView, n: u64, block: Seq<TxActivityView>)
    ensures
        adds_index_writes(s, index_txs(s, block)),
        adds_index_writes(s, index_block(s, n, block)),
    decreases block.len(),
{
    if block.len() > 0 {
        let mid = index_txs(s, block.drop_last());
        let end = index_txs(s, block);
        lemma_index_block_pending(s, n, block.drop_last());
        lemma_record_all_pending(mid, block.last().participants(), block.last().hash);
        lemma_adds_index_writes_chain(s, mid, end);
        let last = end.record_non_empty(n);
        assert(adds_index_writes(end, last)) by {
            assert(last.pending.take(end.pending.len() as int) =~= end.pending);
        }
        lemma_adds_index_writes_chain(s, end, last);
    } else {
        assert(s.pending.take(s.pending.len() as int) =~= s.pending);
    }
}

/// The cursor is written last: where a step indexes a block and moves
/// the cursor, the move is the last of the pending changes, after every
/// index write of the block. Changes made durable in their order thus
/// never leave a cursor past a block whose writes are not durable.
pub proof fn lemma_cursor_is_written_last(sc: Scanner, s: StoreView, block: Seq<TxActivityView>)
    requires
        sc.state != ScanState::Stopped,
        sc.pending == ScanAction::FetchBlock(s.cursor),
        s.cursor < u64::MAX,
    ensures
        ({
            let after = sc.step_spec(s, ScanEventView::BlockFound(block)).store;
            let indexed = index_block(s, s.cursor, block);
            &&& adds_index_writes(s, indexed)
            &&& after.pending == indexed.pending.push(IndexWrite::Cursor((s.cursor + 1) as u64))
        }),
{
    lemma_index_block_pending(s, s.cursor, block);
    lemma_index_txs_keeps_cursor(s, block);
}

/// What a store holds does not depend on what is pending: recording
/// activity in a settled store gives, settled, what it gives in the store
/// itself.
proof fn lemma_record_all_settled(s: StoreView, addresses: Seq<Address>, tx: H256)
    ensures
        record_all(s.settled(), addresses, tx).settled() == record_all(s, addresses, tx).settled(),
    decreases addresses.len(),
{
    if addresses.len() > 0 {
        lemma_record_all_settled(s, addresses.drop_last(), tx);
        let a = record_all(s.settled(), addresses.drop_last(), tx);
        let b = record_all(s, addresses.drop_last(), tx);
        assert(a.settled() == b.settled());
        assert(a.history(addresses.last()) == b.history(addresses.last()));
        assert(a.record_activity(addresses.last(), tx).settled() == b.record_activity(
            addresses.last(),
            tx,
        ).settled());
    }
}

/// What a store holds after a step on a block does not depend on what
/// was pending before it.
pub proof fn lemma_index_block_settled(s: StoreView, n: u64, block: Seq<TxActivityView>)
    ensures
        index_txs(s.settled(), block).settled() == index_txs(s, block).settled(),
        index_block(s.settled(), n, block).settled() == index_block(s, n, block).settled(),
    decreases block.len(),
{
    if block.len() > 0 {
        lemma_index_block_settled(s, n, block.drop_last());
        let a = index_txs(s.settled(), block.drop_last());
        let b = index_txs(s, block.drop_last());
        lemma_record_all_settled(a, block.last().participants(), block.last().hash);
        lemma_record_all_settled(b, block.last().participants(), block.last().hash);
        assert(a.settled() == b.settled());
    }
}

/// A scanner that stopped after the index writes of block N were made
/// durable and before the cursor moved starts again at block N: a fresh
/// scanner over the store as it is read back, with nothing pending, asks
/// for the head and then, the head being at N or later, for block N.
/// Indexing the block a second time then leaves the store holding what a
/// run without the stop would have left.
pub proof fn lemma_resumes_at_cursor(
    s: StoreView,
    block: Seq<TxActivityView>,
    head: u64,
    poll_ms: u64,
    backoff_base_ms: u64,
    backoff_max_ms: u64,
)
    requires
        s.cursor <= head,
    ensures
        ({
            let halted = index_block(s, s.cursor, block).settled();
            let start = Scanner::fresh(poll_ms, backoff_base_ms, backoff_max_ms);
            let first = start.step_spec(halted, ScanEventView::Tick { stop: false });
            let second = first.scanner.step_spec(first.store, ScanEventView::Head(Some(head)));
            let third = second.scanner.step_spec(second.store, ScanEventView::BlockFound(block));
            let unbroken = Scanner {
                state: ScanState::Scanning,
                pending: ScanAction::FetchBlock(s.cursor),
                ..start
            }.step_spec(s, ScanEventView::BlockFound(block));
            &&& halted.cursor == s.cursor
            &&& first.action == ScanAction::QueryHead
            &&& second.action == ScanAction::FetchBlock(s.cursor)
            &&& second.store == halted
            &&& third.store.settled() == unbroken.store.settled()
        }),
{
    let once = index_block(s, s.cursor, block);
    let halted = once.settled();
    let start = Scanner::fresh(poll_ms, backoff_base_ms, backoff_max_ms);
    let first = start.step_spec(halted, ScanEventView::Tick { stop: false });
    let second = first.scanner.step_spec(first.store, ScanEventView::Head(Some(head)));
    let again = index_block(halted, s.cursor, block);
    lemma_index_txs_keeps_cursor(s, block);
    assert(halted.cursor == s.cursor);
    assert(first.action == ScanAction::QueryHead && first.store == halted);
    assert(second.action == ScanAction::FetchBlock(s.cursor) && second.store == halted);
    assert(again.settled() == once.settled()) by {
        lemma_index_block_idempotent(s, s.cursor, block);
        lemma_index_block_settled(once, s.cursor, block);
    }
    assert(again.cursor == s.cursor) by {
        lemma_index_txs_keeps_cursor(halted, block);
    }
    let resumed = second.scanner;
    let straight = Scanner {
        state: ScanState::Scanning,
        pending: ScanAction::FetchBlock(s.cursor),
        ..start
    };
    lemma_step_moves_cursor_by_one(resumed, halted, ScanEventView::BlockFound(block));
    lemma_step_moves_cursor_by_one(straight, s, ScanEventView::BlockFound(block));
    if s.cursor < u64::MAX {
        assert(again.advance((s.cursor + 1) as u64).settled() == once.advance(
            (s.cursor + 1) as u64,
        ).settled());
    }
}

} // verus!
