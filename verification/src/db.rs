//! The index store: the scan cursor, the transaction history of each address,
//! the set of non-empty blocks and the registered contracts.
//!
//! The store keeps derived data only. Every write is an upsert, so applying
//! the same write twice leaves the store as one application does.

use vstd::prelude::*;
use crate::durable::{
    lemma_pending_held, lemma_tracks_advance, lemma_tracks_record_activity,
    lemma_tracks_record_non_empty, lemma_tracks_register, pending_held,
};
use crate::text::{lemma_filter_drops_all, lemma_filter_keeps_all};
use crate::types::{Address, H256};

verus! {

/// Why a write to the store was refused.
#[derive(Clone, Copy, Debug, PartialEq, Eq)]
pub enum StorageError {
    /// The cursor may only move forward: `requested` was not above `current`.
    CursorRegression { current: u64, requested: u64 },
    /// The cursor stands at the last block number and cannot move further.
    CursorExhausted,
}

/// What is known of a verified contract.
#[derive(Debug)]
pub struct ContractRecord {
    pub source: String,
    pub compiler: String,
    pub optimized: bool,
    pub name: String,
    pub abi: String,
    /// Constructor arguments; reserved.
    pub constructor: Vec<u8>,
}

/// The mathematical value of a [`ContractRecord`].
pub struct ContractRecordView {
    pub source: Seq<char>,
    pub compiler: Seq<char>,
    pub optimized: bool,
    pub name: Seq<char>,
    pub abi: Seq<char>,
    pub constructor: Seq<u8>,
}

impl View for ContractRecord {
    type V = ContractRecordView;

    open spec fn view(&self) -> ContractRecordView {
        ContractRecordView {
            source: self.source@,
            compiler: self.compiler@,
            optimized: self.optimized,
            name: self.name@,
            abi: self.abi@,
            constructor: self.constructor@,
        }
    }
}

impl ContractRecord {
    /// A copy of the record.
    pub fn duplicate(&self) -> (copy: ContractRecord)
        ensures
            copy@ == self@,
    {
        ContractRecord {
            source: self.source.clone(),
            compiler: self.compiler.clone(),
            optimized: self.optimized,
            name: self.name.clone(),
            abi: self.abi.clone(),
            constructor: self.constructor.clone(),
        }
    }
}

/// Whether `s` is strictly ascending.
pub open spec fn ascending(s: Seq<u64>) -> bool {
    forall|i: int, j: int| 0 <= i < j < s.len() ==> s[i] < s[j]
}

/// Whether no value occurs twice in `s`.
pub open spec fn distinct<T>(s: Seq<T>) -> bool {
    forall|i: int, j: int| 0 <= i < j < s.len() ==> s[i] != s[j]
}

/// `s` with `n` among its members: unchanged where `n` is one already, else
/// the members below `n`, then `n`, then the members above it.
pub open spec fn with_block(s: Seq<u64>, n: u64) -> Seq<u64> {
    if s.contains(n) {
        s
    } else {
        s.filter(|x: u64| x < n).push(n) + s.filter(|x: u64| x > n)
    }
}

/// The members of `s` from position `skip` on, `take` of them at most.
pub open spec fn page_of<T>(s: Seq<T>, skip: int, take: int) -> Seq<T> {
    let from = if skip < s.len() { skip } else { s.len() as int };
    let to = if from + take < s.len() { from + take } else { s.len() as int };
    s.subrange(from, to)
}

/// A change to the store that is to be made durable: what was added, by
/// its key. The value that belongs to the key is read from the store.
#[derive(Clone, Copy, Debug, PartialEq, Eq)]
pub enum IndexWrite {
    /// A transaction was added to the history of an address.
    Activity { address: Address, tx_hash: H256 },
    /// A block was added to the non-empty blocks.
    NonEmptyBlock(u64),
    /// The cursor moved here.
    Cursor(u64),
    /// A contract was registered for this address.
    Contract(Address),
}

/// The mathematical value of an [`IndexStore`].
#[verifier::ext_equal]
pub struct StoreView {
    /// The next block to scan.
    pub cursor: u64,
    /// For each address with any activity, the hashes of its transactions,
    /// oldest first.
    pub activity: Map<Address, Seq<H256>>,
    /// The numbers of the blocks that hold a transaction, ascending.
    pub non_empty: Seq<u64>,
    /// The registered contracts.
    pub contracts: Map<Address, ContractRecordView>,
    /// The changes that were not handed out yet to be made durable, in the
    /// order in which they were made. A write that changes nothing leaves
    /// none.
    pub pending: Seq<IndexWrite>,
}

impl StoreView {
    /// The store that holds nothing and starts scanning at `genesis`.
    pub open spec fn empty(genesis: u64) -> StoreView {
        StoreView {
            cursor: genesis,
            activity: Map::empty(),
            non_empty: Seq::empty(),
            contracts: Map::empty(),
            pending: Seq::empty(),
        }
    }

    /// The store with every change handed out.
    pub open spec fn settled(self) -> StoreView {
        StoreView { pending: Seq::empty(), ..self }
    }

    /// The transactions of `address`, oldest first; empty where it has none.
    pub open spec fn history(self, address: Address) -> Seq<H256> {
        if self.activity.contains_key(address) {
            self.activity[address]
        } else {
            Seq::empty()
        }
    }

    /// The store after `tx` was recorded for `address`.
    pub open spec fn record_activity(self, address: Address, tx: H256) -> StoreView {
        if self.history(address).contains(tx) {
            self
        } else {
            StoreView {
                activity: self.activity.insert(address, self.history(address).push(tx)),
                pending: self.pending.push(IndexWrite::Activity { address, tx_hash: tx }),
                ..self
            }
        }
    }

    /// The store after block `n` was recorded as non-empty.
    pub open spec fn record_non_empty(self, n: u64) -> StoreView {
        if self.non_empty.contains(n) {
            self
        } else {
            StoreView {
                non_empty: with_block(self.non_empty, n),
                pending: self.pending.push(IndexWrite::NonEmptyBlock(n)),
                ..self
            }
        }
    }

    /// The store after an attempt to move the cursor to `to`.
    pub open spec fn advance(self, to: u64) -> StoreView {
        if to > self.cursor {
            StoreView { cursor: to, pending: self.pending.push(IndexWrite::Cursor(to)), ..self }
        } else {
            self
        }
    }

    /// The store after `record` was registered for `address`.
    pub open spec fn register(self, address: Address, record: ContractRecordView) -> StoreView {
        StoreView {
            contracts: self.contracts.insert(address, record),
            pending: self.pending.push(IndexWrite::Contract(address)),
            ..self
        }
    }
}

/// What was read back from the durable copy of the store under one key.
#[derive(Debug)]
pub enum StoredEntry {
    /// The cursor.
    Cursor(u64),
    /// The history of an address, oldest first.
    History(Address, Vec<H256>),
    /// A non-empty block.
    NonEmptyBlock(u64),
    /// The contract of an address.
    Contract(Address, ContractRecord),
}

/// The mathematical value of a [`StoredEntry`].
pub enum StoredEntryView {
    Cursor(u64),
    History(Address, Seq<H256>),
    NonEmptyBlock(u64),
    Contract(Address, ContractRecordView),
}

impl View for StoredEntry {
    type V = StoredEntryView;

    open spec fn view(&self) -> StoredEntryView {
        match *self {
            StoredEntry::Cursor(c) => StoredEntryView::Cursor(c),
            StoredEntry::History(address, txs) => StoredEntryView::History(address, txs@),
            StoredEntry::NonEmptyBlock(n) => StoredEntryView::NonEmptyBlock(n),
            StoredEntry::Contract(address, record) => StoredEntryView::Contract(address, record@),
        }
    }
}

/// The views of `entries`, in order.
pub open spec fn entry_views(entries: Seq<StoredEntry>) -> Seq<StoredEntryView> {
    entries.map_values(|entry: StoredEntry| entry@)
}

/// The store after each of `txs` was recorded for `address`, in order.
pub open spec fn record_history(s: StoreView, address: Address, txs: Seq<H256>) -> StoreView
    decreases txs.len(),
{
    if txs.len() == 0 {
        s
    } else {
        record_history(s, address, txs.drop_last()).record_activity(address, txs.last())
    }
}

/// The store after `entry` was read back into it.
pub open spec fn with_entry(s: StoreView, entry: StoredEntryView) -> StoreView {
    match entry {
        StoredEntryView::Cursor(c) => s.advance(c),
        StoredEntryView::History(address, txs) => record_history(s, address, txs),
        StoredEntryView::NonEmptyBlock(n) => s.record_non_empty(n),
        StoredEntryView::Contract(address, record) => s.register(address, record),
    }
}

/// The store after each of `entries` was read back into it, in order.
pub open spec fn with_entries(s: StoreView, entries: Seq<StoredEntryView>) -> StoreView
    decreases entries.len(),
{
    if entries.len() == 0 {
        s
    } else {
        with_entry(with_entries(s, entries.drop_last()), entries.last())
    }
}

/// The store after an attempt to move the cursor to each of `targets`, in
/// order.
pub open spec fn advance_all(s: StoreView, targets: Seq<u64>) -> StoreView
    decreases targets.len(),
{
    if targets.len() == 0 {
        s
    } else {
        advance_all(s, targets.drop_last()).advance(targets.last())
    }
}

/// The cursor never moves back: over any sequence of attempts to move it,
/// it stands after the first `j` of them at least where it stood after the
/// first `i`. An attempt to move it to where it stands, or before, changes
/// nothing in the store.
pub proof fn lemma_cursor_monotone(s: StoreView, targets: Seq<u64>, i: int, j: int)
    requires
        0 <= i <= j <= targets.len(),
    ensures
        advance_all(s, targets.take(i)).cursor <= advance_all(s, targets.take(j)).cursor,
        forall|to: u64| to <= s.cursor ==> #[trigger] s.advance(to) == s,
    decreases j - i,
{
    if i < j {
        lemma_cursor_monotone(s, targets, i, j - 1);
        assert(targets.take(j).drop_last() =~= targets.take(j - 1));
    }
}

/// In an ascending sequence that lacks `n`, inserting `n` after the `k`
/// members below it gives [`with_block`].
proof fn lemma_insert_is_with_block(s: Seq<u64>, n: u64, k: int)
    requires
        ascending(s),
        0 <= k <= s.len(),
        forall|i: int| 0 <= i < k ==> s[i] < n,
        forall|i: int| k <= i < s.len() ==> s[i] > n,
    ensures
        !s.contains(n),
        s.insert(k, n) == with_block(s, n),
        ascending(s.insert(k, n)),
{
    let below = |x: u64| x < n;
    let above = |x: u64| x > n;
    let head = s.subrange(0, k);
    let tail = s.subrange(k, s.len() as int);
    assert(s =~= head + tail);
    Seq::filter_distributes_over_add(head, tail, below);
    Seq::filter_distributes_over_add(head, tail, above);
    lemma_filter_keeps_all(head, below);
    lemma_filter_drops_all(tail, below);
    lemma_filter_drops_all(head, above);
    lemma_filter_keeps_all(tail, above);
    assert(s.filter(below) =~= head);
    assert(s.filter(above) =~= tail);
    s.insert_ensures(k, n);
    let t = s.insert(k, n);
    assert forall|i: int, j: int| 0 <= i < j < t.len() implies t[i] < t[j] by {
        if i < k {
            assert(t[i] == s[i]);
        } else if i > k {
            assert(t[i] == s[i - 1]);
        }
        if j < k {
            assert(t[j] == s[j]);
        } else if j > k {
            assert(t[j] == s[j - 1]);
        }
    }
}

/// Whether `tx` is among `txs`.
fn hash_in(txs: &Vec<H256>, tx: &H256) -> (found: bool)
    ensures
        found == txs@.contains(*tx),
{
    let mut i: usize = 0;
    while i < txs.len()
        invariant
            i <= txs@.len(),
            forall|j: int| 0 <= j < i ==> txs@[j] != *tx,
        decreases txs@.len() - i,
    {
        if txs[i].same(tx) {
            return true;
        }
        i += 1;
    }
    false
}

/// The history of one address.
struct Bucket {
    address: Address,
    txs: Vec<H256>,
}

/// The contract registered for one address.
struct ContractEntry {
    address: Address,
    record: ContractRecord,
}

/// The index store.
pub struct IndexStore {
    cursor: u64,
    buckets: Vec<Bucket>,
    non_empty: Vec<u64>,
    contracts: Vec<ContractEntry>,
    pending: Vec<IndexWrite>,
}

spec fn has_bucket(buckets: Seq<Bucket>, a: Address) -> bool {
    exists|i: int| 0 <= i < buckets.len() && (#[trigger] buckets[i]).address == a
}

spec fn bucket_at(buckets: Seq<Bucket>, a: Address) -> int {
    choose|i: int| 0 <= i < buckets.len() && (#[trigger] buckets[i]).address == a
}

spec fn has_entry(entries: Seq<ContractEntry>, a: Address) -> bool {
    exists|i: int| 0 <= i < entries.len() && (#[trigger] entries[i]).address == a
}

spec fn entry_at(entries: Seq<ContractEntry>, a: Address) -> int {
    choose|i: int| 0 <= i < entries.len() && (#[trigger] entries[i]).address == a
}

spec fn buckets_ok(buckets: Seq<Bucket>) -> bool {
    &&& forall|i: int, j: int|
        0 <= i < j < buckets.len() ==> (#[trigger] buckets[i]).address != (#[trigger] buckets[j]).address
    &&& forall|i: int| 0 <= i < buckets.len() ==> (#[trigger] buckets[i]).txs@.len() > 0
    &&& forall|i: int| 0 <= i < buckets.len() ==> distinct((#[trigger] buckets[i]).txs@)
}

spec fn entries_ok(entries: Seq<ContractEntry>) -> bool {
    forall|i: int, j: int|
        0 <= i < j < entries.len() ==> (#[trigger] entries[i]).address != (#[trigger] entries[j]).address
}

/// The histories that `buckets` hold, by address.
spec fn activity_of(buckets: Seq<Bucket>) -> Map<Address, Seq<H256>> {
    Map::new(|a: Address| has_bucket(buckets, a), |a: Address| buckets[bucket_at(buckets, a)].txs@)
}

/// The contracts that `entries` hold, by address.
spec fn contracts_of(entries: Seq<ContractEntry>) -> Map<Address, ContractRecordView> {
    Map::new(|a: Address| has_entry(entries, a), |a: Address| entries[entry_at(entries, a)].record@)
}

/// The bucket at position `i` is the history of its address.
proof fn lemma_activity_at(buckets: Seq<Bucket>, i: int)
    requires
        buckets_ok(buckets),
        0 <= i < buckets.len(),
    ensures
        has_bucket(buckets, buckets[i].address),
        bucket_at(buckets, buckets[i].address) == i,
        activity_of(buckets).contains_key(buckets[i].address),
        activity_of(buckets)[buckets[i].address] == buckets[i].txs@,
{
    let a = buckets[i].address;
    assert(has_bucket(buckets, a));
    let j = bucket_at(buckets, a);
    assert(0 <= j < buckets.len() && buckets[j].address == a);
    if j < i {
        assert(buckets[j].address != buckets[i].address);
    } else if i < j {
        assert(buckets[i].address != buckets[j].address);
    }
}

/// The entry at position `i` is the contract of its address.
proof fn lemma_contract_at(entries: Seq<ContractEntry>, i: int)
    requires
        entries_ok(entries),
        0 <= i < entries.len(),
    ensures
        has_entry(entries, entries[i].address),
        entry_at(entries, entries[i].address) == i,
        contracts_of(entries).contains_key(entries[i].address),
        contracts_of(entries)[entries[i].address] == entries[i].record@,
{
    let a = entries[i].address;
    assert(has_entry(entries, a));
    let j = entry_at(entries, a);
    assert(0 <= j < entries.len() && entries[j].address == a);
    if j < i {
        assert(entries[j].address != entries[i].address);
    } else if i < j {
        assert(entries[i].address != entries[j].address);
    }
}

/// A new bucket for an address that has none adds that address's history.
proof fn lemma_activity_push(buckets: Seq<Bucket>, b: Bucket)
    requires
        buckets_ok(buckets),
        !has_bucket(buckets, b.address),
        b.txs@.len() > 0,
        distinct(b.txs@),
    ensures
        buckets_ok(buckets.push(b)),
        activity_of(buckets.push(b)) == activity_of(buckets).insert(b.address, b.txs@),
{
    let after = buckets.push(b);
    assert forall|i: int, j: int| 0 <= i < j < after.len() implies (#[trigger] after[i]).address
        != (#[trigger] after[j]).address by {
        if j == buckets.len() {
            assert(buckets[i].address != b.address);
        } else {
            assert(buckets[i].address != buckets[j].address);
        }
    }
    assert(buckets_ok(after));
    assert forall|a: Address| has_bucket(after, a) <==> (has_bucket(buckets, a) || a == b.address) by {
        if has_bucket(buckets, a) {
            let i = bucket_at(buckets, a);
            assert(after[i].address == a);
        }
        if a == b.address {
            assert(after[buckets.len() as int].address == a);
        }
        if has_bucket(after, a) {
            let i = bucket_at(after, a);
            if i < buckets.len() {
                assert(buckets[i].address == a);
            }
        }
    }
    assert forall|a: Address| has_bucket(after, a) implies #[trigger] activity_of(after)[a]
        == activity_of(buckets).insert(b.address, b.txs@)[a] by {
        if a == b.address {
            lemma_activity_at(after, buckets.len() as int);
        } else {
            let i = bucket_at(buckets, a);
            lemma_activity_at(buckets, i);
            lemma_activity_at(after, i);
        }
    }
    assert(activity_of(after) =~= activity_of(buckets).insert(b.address, b.txs@));
}

/// Replacing the history in bucket `i` replaces that address's history.
proof fn lemma_activity_update(buckets: Seq<Bucket>, i: int, b: Bucket)
    requires
        buckets_ok(buckets),
        0 <= i < buckets.len(),
        b.address == buckets[i].address,
        b.txs@.len() > 0,
        distinct(b.txs@),
    ensures
        buckets_ok(buckets.update(i, b)),
        activity_of(buckets.update(i, b)) == activity_of(buckets).insert(b.address, b.txs@),
{
    let after = buckets.update(i, b);
    assert forall|x: int, y: int| 0 <= x < y < after.len() implies (#[trigger] after[x]).address
        != (#[trigger] after[y]).address by {
        assert(buckets[x].address != buckets[y].address);
    }
    assert(buckets_ok(after));
    assert forall|a: Address| has_bucket(after, a) <==> (has_bucket(buckets, a) || a == b.address) by {
        if has_bucket(buckets, a) {
            let k = bucket_at(buckets, a);
            assert(after[k].address == a);
        }
        if a == b.address {
            assert(after[i].address == a);
        }
        if has_bucket(after, a) {
            let k = bucket_at(after, a);
            assert(buckets[k].address == a);
        }
    }
    assert forall|a: Address| has_bucket(after, a) implies #[trigger] activity_of(after)[a]
        == activity_of(buckets).insert(b.address, b.txs@)[a] by {
        if a == b.address {
            lemma_activity_at(after, i);
        } else {
            let k = bucket_at(buckets, a);
            lemma_activity_at(buckets, k);
            lemma_activity_at(after, k);
        }
    }
    assert(activity_of(after) =~= activity_of(buckets).insert(b.address, b.txs@));
}

/// A new entry for an address that has none adds that address's contract.
proof fn lemma_contracts_push(entries: Seq<ContractEntry>, e: ContractEntry)
    requires
        entries_ok(entries),
        !has_entry(entries, e.address),
    ensures
        entries_ok(entries.push(e)),
        contracts_of(entries.push(e)) == contracts_of(entries).insert(e.address, e.record@),
{
    let after = entries.push(e);
    assert forall|i: int, j: int| 0 <= i < j < after.len() implies (#[trigger] after[i]).address
        != (#[trigger] after[j]).address by {
        if j == entries.len() {
            assert(entries[i].address != e.address);
        } else {
            assert(entries[i].address != entries[j].address);
        }
    }
    assert forall|a: Address| has_entry(after, a) <==> (has_entry(entries, a) || a == e.address) by {
        if has_entry(entries, a) {
            let i = entry_at(entries, a);
            assert(after[i].address == a);
        }
        if a == e.address {
            assert(after[entries.len() as int].address == a);
        }
        if has_entry(after, a) {
            let i = entry_at(after, a);
            if i < entries.len() {
                assert(entries[i].address == a);
            }
        }
    }
    assert forall|a: Address| has_entry(after, a) implies #[trigger] contracts_of(after)[a]
        == contracts_of(entries).insert(e.address, e.record@)[a] by {
        if a == e.address {
            lemma_contract_at(after, entries.len() as int);
        } else {
            let i = entry_at(entries, a);
            lemma_contract_at(entries, i);
            lemma_contract_at(after, i);
        }
    }
    assert(contracts_of(after) =~= contracts_of(entries).insert(e.address, e.record@));
}

/// Replacing entry `i` replaces that address's contract.
proof fn lemma_contracts_update(entries: Seq<ContractEntry>, i: int, e: ContractEntry)
    requires
        entries_ok(entries),
        0 <= i < entries.len(),
        e.address == entries[i].address,
    ensures
        entries_ok(entries.update(i, e)),
        contracts_of(entries.update(i, e)) == contracts_of(entries).insert(e.address, e.record@),
{
    let after = entries.update(i, e);
    assert forall|x: int, y: int| 0 <= x < y < after.len() implies (#[trigger] after[x]).address
        != (#[trigger] after[y]).address by {
        assert(entries[x].address != entries[y].address);
    }
    assert forall|a: Address| has_entry(after, a) <==> (has_entry(entries, a) || a == e.address) by {
        if has_entry(entries, a) {
            let k = entry_at(entries, a);
            assert(after[k].address == a);
        }
        if a == e.address {
            assert(after[i].address == a);
        }
        if has_entry(after, a) {
            let k = entry_at(after, a);
            assert(entries[k].address == a);
        }
    }
    assert forall|a: Address| has_entry(after, a) implies #[trigger] contracts_of(after)[a]
        == contracts_of(entries).insert(e.address, e.record@)[a] by {
        if a == e.address {
            lemma_contract_at(after, i);
        } else {
            let k = entry_at(entries, a);
            lemma_contract_at(entries, k);
            lemma_contract_at(after, k);
        }
    }
    assert(contracts_of(after) =~= contracts_of(entries).insert(e.address, e.record@));
}

impl View for IndexStore {
    type V = StoreView;

    closed spec fn view(&self) -> StoreView {
        StoreView {
            cursor: self.cursor,
            activity: activity_of(self.buckets@),
            non_empty: self.non_empty@,
            contracts: contracts_of(self.contracts@),
            pending: self.pending@,
        }
    }
}

impl IndexStore {
    /// Whether the store is well formed: every address has one history
    /// and one contract at most, no history holds a transaction twice, and
    /// the non-empty blocks ascend. Every constructor establishes this and
    /// every method keeps it.
    pub closed spec fn wf(&self) -> bool {
        &&& buckets_ok(self.buckets@)
        &&& ascending(self.non_empty@)
        &&& entries_ok(self.contracts@)
        &&& pending_held(self@)
    }

    /// What holds of every store: no history holds a transaction twice,
    /// the non-empty blocks ascend, so that none occurs twice, and every
    /// pending change is a change to something that the store holds.
    pub proof fn lemma_invariants(&self)
        requires
            self.wf(),
        ensures
            ascending(self@.non_empty),
            forall|address: Address| distinct(#[trigger] self@.history(address)),
            pending_held(self@),
    {
        assert forall|address: Address| distinct(#[trigger] self@.history(address)) by {
            if has_bucket(self.buckets@, address) {
                let i = bucket_at(self.buckets@, address);
                lemma_activity_at(self.buckets@, i);
            }
        }
    }

    /// An empty store whose scan starts at block 0.
    pub fn new() -> (store: IndexStore)
        ensures
            store.wf(),
            store@ == StoreView::empty(0),
    {
        IndexStore::with_genesis(0)
    }

    /// An empty store whose scan starts at block `genesis`.
    pub fn with_genesis(genesis: u64) -> (store: IndexStore)
        ensures
            store.wf(),
            store@ == StoreView::empty(genesis),
    {
        let store = IndexStore {
            cursor: genesis,
            buckets: Vec::new(),
            non_empty: Vec::new(),
            contracts: Vec::new(),
            pending: Vec::new(),
        };
        assert(store@.activity =~= Map::empty());
        assert(store@.contracts =~= Map::empty());
        store
    }

    /// The store that the durable copy holds: an empty store that starts
    /// at `genesis`, with each of `entries` read back into it, in order,
    /// and with nothing pending. A cursor before `genesis` is left aside,
    /// and what an entry holds twice is kept once.
    pub fn restore(genesis: u64, entries: &Vec<StoredEntry>) -> (store: IndexStore)
        ensures
            store.wf(),
            store@ == with_entries(StoreView::empty(genesis), entry_views(entries@)).settled(),
    {
        let mut store = IndexStore::with_genesis(genesis);
        let ghost all = entry_views(entries@);
        let ghost start = StoreView::empty(genesis);
        let mut k: usize = 0;
        proof {
            assert(all.take(0) =~= Seq::<StoredEntryView>::empty());
        }
        while k < entries.len()
            invariant
                store.wf(),
                k <= entries@.len(),
                all == entry_views(entries@),
                store@ == with_entries(start, all.take(k as int)),
            decreases entries@.len() - k,
        {
            proof {
                assert(all.take(k + 1).drop_last() =~= all.take(k as int));
                assert(all.take(k + 1).last() == entries@[k as int]@);
            }
            match &entries[k] {
                StoredEntry::Cursor(c) => {
                    let _ = store.advance_cursor(*c);
                },
                StoredEntry::History(address, txs) => {
                    let ghost at = store@;
                    let mut i: usize = 0;
                    proof {
                        assert(txs@.take(0) =~= Seq::<H256>::empty());
                    }
                    while i < txs.len()
                        invariant
                            store.wf(),
                            i <= txs@.len(),
                            store@ == record_history(at, *address, txs@.take(i as int)),
                        decreases txs@.len() - i,
                    {
                        proof {
                            assert(txs@.take(i + 1).drop_last() =~= txs@.take(i as int));
                        }
                        store.record_address_activity(*address, txs[i]);
                        i += 1;
                    }
                    proof {
                        assert(txs@.take(i as int) =~= txs@);
                    }
                },
                StoredEntry::NonEmptyBlock(n) => {
                    store.record_non_empty_block(*n);
                },
                StoredEntry::Contract(address, record) => {
                    store.set_contract(*address, record.duplicate());
                },
            }
            k += 1;
        }
        proof {
            assert(all.take(k as int) =~= all);
        }
        store.take_pending();
        store
    }

    /// The next block to scan.
    pub fn get_cursor(&self) -> (cursor: u64)
        ensures
            cursor == self@.cursor,
    {
        self.cursor
    }

    /// Moves the cursor forward to `to`. A `to` that is not above the cursor
    /// is refused and leaves the store as it was.
    pub fn advance_cursor(&mut self, to: u64) -> (r: Result<(), StorageError>)
        requires
            old(self).wf(),
        ensures
            final(self).wf(),
            final(self)@ == old(self)@.advance(to),
            final(self)@.cursor >= old(self)@.cursor,
            to > old(self)@.cursor ==> r == Ok::<(), StorageError>(()),
            to <= old(self)@.cursor ==> r == Err::<(), StorageError>(
                StorageError::CursorRegression { current: old(self)@.cursor, requested: to },
            ) && final(self)@ == old(self)@,
    {
        if to > self.cursor {
            self.cursor = to;
            self.pending.push(IndexWrite::Cursor(to));
            proof {
                lemma_tracks_advance(old(self)@, to);
                lemma_pending_held(old(self)@, self@);
            }
            Ok(())
        } else {
            Err(StorageError::CursorRegression { current: self.cursor, requested: to })
        }
    }

    /// Records block `n` as one that holds a transaction. Recording a block
    /// twice changes nothing. Returns whether the block is new to the store.
    pub fn record_non_empty_block(&mut self, n: u64) -> (added: bool)
        requires
            old(self).wf(),
        ensures
            final(self).wf(),
            final(self)@ == old(self)@.record_non_empty(n),
            added == !old(self)@.non_empty.contains(n),
            ascending(final(self)@.non_empty),
    {
        let mut k: usize = self.non_empty.len();
        while k > 0 && self.non_empty[k - 1] > n
            invariant
                k <= self.non_empty.len(),
                forall|i: int| k <= i < self.non_empty.len() ==> self.non_empty@[i] > n,
            decreases k,
        {
            k -= 1;
        }
        if k > 0 && self.non_empty[k - 1] == n {
            return false;
        }
        proof {
            assert forall|i: int| 0 <= i < k implies self.non_empty@[i] < n by {
                if i < k - 1 {
                    assert(self.non_empty@[i] < self.non_empty@[k - 1]);
                }
            }
            lemma_insert_is_with_block(self.non_empty@, n, k as int);
        }
        self.non_empty.insert(k, n);
        self.pending.push(IndexWrite::NonEmptyBlock(n));
        proof {
            lemma_tracks_record_non_empty(old(self)@, n);
            lemma_pending_held(old(self)@, self@);
        }
        true
    }

    /// How many blocks are recorded as non-empty.
    pub fn count_non_empty_blocks(&self) -> (count: usize)
        ensures
            count == self@.non_empty.len(),
    {
        self.non_empty.len()
    }

    /// The non-empty blocks, ascending.
    pub fn iter_non_empty_blocks(&self) -> (blocks: Vec<u64>)
        requires
            self.wf(),
        ensures
            blocks@ == self@.non_empty,
            ascending(blocks@),
    {
        self.non_empty.clone()
    }

    /// The non-empty blocks from position `skip` on, ascending, `take` of
    /// them at most.
    pub fn non_empty_blocks_page(&self, skip: usize, take: usize) -> (blocks: Vec<u64>)
        ensures
            blocks@ == page_of(self@.non_empty, skip as int, take as int),
    {
        let len = self.non_empty.len();
        let from = if skip < len { skip } else { len };
        let to = if take < len - from { from + take } else { len };
        let mut blocks: Vec<u64> = Vec::new();
        let mut i: usize = from;
        while i < to
            invariant
                from <= i <= to <= len,
                len == self.non_empty@.len(),
                blocks@ == self.non_empty@.subrange(from as int, i as int),
            decreases to - i,
        {
            blocks.push(self.non_empty[i]);
            assert(self.non_empty@.subrange(from as int, i as int).push(self.non_empty@[i as int])
                =~= self.non_empty@.subrange(from as int, i + 1));
            i += 1;
        }
        blocks
    }

    /// The position of the bucket of `address`, or the number of buckets
    /// where it has none.
    fn find_bucket(&self, address: &Address) -> (i: usize)
        requires
            self.wf(),
        ensures
            i <= self.buckets@.len(),
            i < self.buckets@.len() ==> self.buckets@[i as int].address == *address,
            i == self.buckets@.len() ==> !has_bucket(self.buckets@, *address),
    {
        let mut i: usize = 0;
        while i < self.buckets.len()
            invariant
                i <= self.buckets@.len(),
                forall|j: int| 0 <= j < i ==> (#[trigger] self.buckets@[j]).address != *address,
            decreases self.buckets@.len() - i,
        {
            if self.buckets[i].address.same(address) {
                return i;
            }
            i += 1;
        }
        i
    }

    /// The position of the contract of `address`, or the number of entries
    /// where it has none.
    fn find_entry(&self, address: &Address) -> (i: usize)
        requires
            self.wf(),
        ensures
            i <= self.contracts@.len(),
            i < self.contracts@.len() ==> self.contracts@[i as int].address == *address,
            i == self.contracts@.len() ==> !has_entry(self.contracts@, *address),
    {
        let mut i: usize = 0;
        while i < self.contracts.len()
            invariant
                i <= self.contracts@.len(),
                forall|j: int| 0 <= j < i ==> (#[trigger] self.contracts@[j]).address != *address,
            decreases self.contracts@.len() - i,
        {
            if self.contracts[i].address.same(address) {
                return i;
            }
            i += 1;
        }
        i
    }

    /// Records that `address` took part in transaction `tx_hash`. Recording
    /// a pair twice changes nothing. Returns whether the pair is new to the
    /// store.
    pub fn record_address_activity(&mut self, address: Address, tx_hash: H256) -> (added: bool)
        requires
            old(self).wf(),
        ensures
            final(self).wf(),
            final(self)@ == old(self)@.record_activity(address, tx_hash),
            added == !old(self)@.history(address).contains(tx_hash),
    {
        let i = self.find_bucket(&address);
        if i == self.buckets.len() {
            let mut txs: Vec<H256> = Vec::new();
            txs.push(tx_hash);
            let bucket = Bucket { address, txs };
            proof {
                lemma_activity_push(self.buckets@, bucket);
                assert(bucket.txs@ =~= Seq::<H256>::empty().push(tx_hash));
            }
            self.buckets.push(bucket);
            self.pending.push(IndexWrite::Activity { address, tx_hash });
            proof {
                lemma_tracks_record_activity(old(self)@, address, tx_hash);
                lemma_pending_held(old(self)@, self@);
            }
            true
        } else {
            proof {
                lemma_activity_at(self.buckets@, i as int);
            }
            if hash_in(&self.buckets[i].txs, &tx_hash) {
                false
            } else {
                let mut txs = self.buckets[i].txs.clone();
                txs.push(tx_hash);
                let bucket = Bucket { address, txs };
                proof {
                    lemma_activity_update(self.buckets@, i as int, bucket);
                }
                self.buckets.set(i, bucket);
                self.pending.push(IndexWrite::Activity { address, tx_hash });
                proof {
                    lemma_tracks_record_activity(old(self)@, address, tx_hash);
                    lemma_pending_held(old(self)@, self@);
                }
                true
            }
        }
    }

    /// The transactions that `address` took part in, oldest first.
    pub fn iter_address_activity(&self, address: &Address) -> (txs: Vec<H256>)
        requires
            self.wf(),
        ensures
            txs@ == self@.history(*address),
            distinct(txs@),
    {
        let i = self.find_bucket(address);
        if i == self.buckets.len() {
            Vec::new()
        } else {
            proof {
                lemma_activity_at(self.buckets@, i as int);
            }
            self.buckets[i].txs.clone()
        }
    }

    /// The contract registered for `address`, if any.
    pub fn get_contract(&self, address: &Address) -> (found: Option<&ContractRecord>)
        requires
            self.wf(),
        ensures
            found is Some <==> self@.contracts.contains_key(*address),
            found is Some ==> found->0@ == self@.contracts[*address],
    {
        let i = self.find_entry(address);
        if i == self.contracts.len() {
            None
        } else {
            proof {
                lemma_contract_at(self.contracts@, i as int);
            }
            Some(&self.contracts[i].record)
        }
    }

    /// Registers `record` for `address`, in place of any earlier one.
    pub fn set_contract(&mut self, address: Address, record: ContractRecord)
        requires
            old(self).wf(),
        ensures
            final(self).wf(),
            final(self)@ == old(self)@.register(address, record@),
    {
        let i = self.find_entry(&address);
        let entry = ContractEntry { address, record };
        if i == self.contracts.len() {
            proof {
                lemma_contracts_push(self.contracts@, entry);
            }
            self.contracts.push(entry);
        } else {
            proof {
                lemma_contracts_update(self.contracts@, i as int, entry);
            }
            self.contracts.set(i, entry);
        }
        self.pending.push(IndexWrite::Contract(address));
        proof {
            lemma_tracks_register(old(self)@, address, record@);
            lemma_pending_held(old(self)@, self@);
        }
    }

    /// The changes that are to be made durable, in the order in which
    /// they were made. They stay pending.
    pub fn pending_writes(&self) -> (writes: Vec<IndexWrite>)
        ensures
            writes@ == self@.pending,
    {
        let mut writes: Vec<IndexWrite> = Vec::new();
        let mut i: usize = 0;
        while i < self.pending.len()
            invariant
                i <= self.pending@.len(),
                writes@ == self.pending@.take(i as int),
            decreases self.pending@.len() - i,
        {
            proof {
                assert(self.pending@.take(i + 1) =~= self.pending@.take(i as int).push(
                    self.pending@[i as int],
                ));
            }
            writes.push(self.pending[i]);
            i += 1;
        }
        proof {
            assert(self.pending@.take(i as int) =~= self.pending@);
        }
        writes
    }

    /// Hands out the changes that are to be made durable, in the order in
    /// which they were made, and keeps none of them.
    pub fn take_pending(&mut self) -> (writes: Vec<IndexWrite>)
        requires
            old(self).wf(),
        ensures
            final(self).wf(),
            writes@ == old(self)@.pending,
            final(self)@ == old(self)@.settled(),
    {
        let mut writes: Vec<IndexWrite> = Vec::new();
        std::mem::swap(&mut self.pending, &mut writes);
        writes
    }
}

} // verus!
