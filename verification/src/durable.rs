//! The durable copy of the store: what an ordered key-value space holds
//! where every pending change of the store is written through, key by
//! key and in order, and what is read back from it after a stop at any
//! point. And a second copy of the store in memory, which is kept up
//! with the first by the changes that the first has made, so that one
//! copy can be read while the other is written.

use vstd::prelude::*;
use crate::db::{
    distinct, record_history, with_block, with_entries, ContractRecordView, IndexStore, IndexWrite,
    StoreView, StoredEntry, StoredEntryView,
};
use crate::keys::Key;
use crate::scanner::{
    index_block, index_txs, lemma_index_block_idempotent, lemma_index_block_pending,
    lemma_index_txs_keeps_cursor, record_all, ScanAction, ScanEventView, ScanState, Scanner,
    TxActivityView,
};
use crate::text::lemma_filter_members;
use crate::types::{Address, H256};

verus! {

/// What is kept under one key.
pub enum Stored {
    /// Under the cursor's key: the cursor.
    Cursor(u64),
    /// Under the key of an address: its history, oldest first.
    History(Seq<H256>),
    /// Under the key of a non-empty block: nothing but the key.
    Marker,
    /// Under the key of a contract: its record.
    Contract(ContractRecordView),
}

/// What the store holds under `key`, if it holds anything there.
pub open spec fn held(s: StoreView, key: Key) -> Option<Stored> {
    match key {
        Key::Cursor => Some(Stored::Cursor(s.cursor)),
        Key::Activity(address) => if s.activity.contains_key(address) {
            Some(Stored::History(s.activity[address]))
        } else {
            None
        },
        Key::NonEmptyBlock(n) => if s.non_empty.contains(n) {
            Some(Stored::Marker)
        } else {
            None
        },
        Key::Contract(address) => if s.contracts.contains_key(address) {
            Some(Stored::Contract(s.contracts[address]))
        } else {
            None
        },
    }
}

/// Whether two stores hold the same under every key: the same cursor,
/// histories and contracts, and the same non-empty blocks.
pub open spec fn same_content(a: StoreView, b: StoreView) -> bool {
    forall|key: Key| held(a, key) == held(b, key)
}

/// The durable copy after `write` was written through from store `s`:
/// under the key of the change, what the store holds there.
pub open spec fn put(disk: Map<Key, Stored>, s: StoreView, write: IndexWrite) -> Map<Key, Stored> {
    match held(s, write.key_of()) {
        Some(value) => disk.insert(write.key_of(), value),
        None => disk,
    }
}

/// The durable copy after each of `writes` was written through from
/// store `s`, in order.
pub open spec fn flushed(disk: Map<Key, Stored>, s: StoreView, writes: Seq<IndexWrite>) -> Map<
    Key,
    Stored,
>
    decreases writes.len(),
{
    if writes.len() == 0 {
        disk
    } else {
        put(flushed(disk, s, writes.drop_last()), s, writes.last())
    }
}

/// Whether the durable copy holds what store `s` holds: under every key
/// the same, but that it may lack a cursor where the store's cursor is
/// still at `genesis`.
pub open spec fn mirrors(disk: Map<Key, Stored>, s: StoreView, genesis: u64) -> bool {
    &&& forall|key: Key|
        key != Key::Cursor ==> (if disk.contains_key(key) {
            held(s, key) == Some(disk[key])
        } else {
            held(s, key) is None
        })
    &&& if disk.contains_key(Key::Cursor) {
        disk[Key::Cursor] == Stored::Cursor(s.cursor)
    } else {
        s.cursor == genesis
    }
}

/// Whether one of `writes`, from place `from` on, is kept under `key`.
pub open spec fn written_in(writes: Seq<IndexWrite>, from: int, key: Key) -> bool {
    exists|i: int| from <= i < writes.len() && (#[trigger] writes[i]).key_of() == key
}

/// Whether the pending changes of `s1` tell every difference between
/// `s0` and `s1`: `s1` has the pending changes of `s0` and more after
/// them, has lost nothing that `s0` holds, holds something under the key
/// of each further change, and holds under every other key what `s0`
/// holds.
pub open spec fn tracks(s0: StoreView, s1: StoreView) -> bool {
    &&& s0.pending.len() <= s1.pending.len()
    &&& s1.pending.take(s0.pending.len() as int) == s0.pending
    &&& forall|key: Key| held(s0, key) is Some ==> held(s1, key) is Some
    &&& forall|key: Key|
        held(s1, key) != held(s0, key) ==> written_in(s1.pending, s0.pending.len() as int, key)
    &&& forall|i: int|
        s0.pending.len() <= i < s1.pending.len() ==> held(s1, (#[trigger] s1.pending[i]).key_of())
            is Some
}

/// Whether the store holds something under the key of each pending
/// change.
pub open spec fn pending_held(s: StoreView) -> bool {
    forall|i: int| 0 <= i < s.pending.len() ==> held(s, (#[trigger] s.pending[i]).key_of()) is Some
}

/// A store that tells its differences to a store with that property has
/// it too.
pub proof fn lemma_pending_held(s0: StoreView, s1: StoreView)
    requires
        tracks(s0, s1),
        pending_held(s0),
    ensures
        pending_held(s1),
{
    assert forall|i: int| 0 <= i < s1.pending.len() implies held(
        s1,
        (#[trigger] s1.pending[i]).key_of(),
    ) is Some by {
        if i < s0.pending.len() {
            assert(s1.pending.take(s0.pending.len() as int)[i] == s0.pending[i]);
            assert(held(s0, s0.pending[i].key_of()) is Some);
        }
    }
}

/// What is written through is there afterwards, and nothing else has
/// changed.
pub proof fn lemma_flushed(disk: Map<Key, Stored>, s: StoreView, writes: Seq<IndexWrite>, key: Key)
    ensures
        written_in(writes, 0, key) && held(s, key) is Some ==> flushed(disk, s, writes).contains_key(
            key,
        ) && flushed(disk, s, writes)[key] == held(s, key)->0,
        !(written_in(writes, 0, key) && held(s, key) is Some) ==> (flushed(
            disk,
            s,
            writes,
        ).contains_key(key) <==> disk.contains_key(key)) && (disk.contains_key(key) ==> flushed(
            disk,
            s,
            writes,
        )[key] == disk[key]),
    decreases writes.len(),
{
    if writes.len() > 0 {
        let front = writes.drop_last();
        lemma_flushed(disk, s, front, key);
        if written_in(front, 0, key) {
            let i = choose|i: int| 0 <= i < front.len() && (#[trigger] front[i]).key_of() == key;
            assert(writes[i].key_of() == key);
        }
        if written_in(writes, 0, key) {
            let i = choose|i: int| 0 <= i < writes.len() && (#[trigger] writes[i]).key_of() == key;
            if i < front.len() {
                assert(front[i].key_of() == key);
            }
        }
        if writes.last().key_of() == key {
            assert(writes[writes.len() - 1].key_of() == key);
        }
    }
}

/// Recording a block as non-empty adds that block to the members and
/// changes no other.
pub proof fn lemma_with_block_members(s: Seq<u64>, n: u64, m: u64)
    ensures
        with_block(s, n).contains(m) <==> s.contains(m) || m == n,
{
    if !s.contains(n) {
        let below = s.filter(|x: u64| x < n);
        let above = s.filter(|x: u64| x > n);
        let t = with_block(s, n);
        lemma_filter_members(s, |x: u64| x < n, m);
        lemma_filter_members(s, |x: u64| x > n, m);
        assert(t[below.len() as int] == n);
        if t.contains(m) {
            let i = choose|i: int| 0 <= i < t.len() && t[i] == m;
            if i < below.len() {
                assert(below[i] == m);
            } else if i > below.len() {
                assert(above[i - below.len() - 1] == m);
            }
        }
        if s.contains(m) {
            if m < n {
                let i = choose|i: int| 0 <= i < below.len() && below[i] == m;
                assert(t[i] == m);
            } else {
                let i = choose|i: int| 0 <= i < above.len() && above[i] == m;
                assert(t[below.len() + 1 + i] == m);
            }
        }
    }
}

/// A store tells every difference to itself.
pub proof fn lemma_tracks_itself(s: StoreView)
    ensures
        tracks(s, s),
{
    assert(s.pending.take(s.pending.len() as int) =~= s.pending);
}

/// Differences that are told step by step are told over both steps.
pub proof fn lemma_tracks_chain(a: StoreView, b: StoreView, c: StoreView)
    requires
        tracks(a, b),
        tracks(b, c),
    ensures
        tracks(a, c),
{
    assert(c.pending.take(a.pending.len() as int) =~= a.pending) by {
        assert forall|i: int| 0 <= i < a.pending.len() implies c.pending[i] == a.pending[i] by {
            assert(c.pending.take(b.pending.len() as int)[i] == b.pending[i]);
            assert(b.pending.take(a.pending.len() as int)[i] == a.pending[i]);
        }
    }
    assert forall|key: Key| held(c, key) != held(a, key) implies written_in(
        c.pending,
        a.pending.len() as int,
        key,
    ) by {
        if held(c, key) != held(b, key) {
            let i = choose|i: int|
                b.pending.len() <= i < c.pending.len() && (#[trigger] c.pending[i]).key_of() == key;
            assert(c.pending[i].key_of() == key);
        } else {
            let i = choose|i: int|
                a.pending.len() <= i < b.pending.len() && (#[trigger] b.pending[i]).key_of() == key;
            assert(c.pending.take(b.pending.len() as int)[i] == b.pending[i]);
            assert(c.pending[i].key_of() == key);
        }
    }
    assert forall|i: int| a.pending.len() <= i < c.pending.len() implies held(
        c,
        (#[trigger] c.pending[i]).key_of(),
    ) is Some by {
        if i < b.pending.len() {
            assert(c.pending.take(b.pending.len() as int)[i] == b.pending[i]);
            assert(held(b, b.pending[i].key_of()) is Some);
        }
    }
}

/// Recording activity tells what it changes.
pub proof fn lemma_tracks_record_activity(s: StoreView, address: Address, tx: H256)
    ensures
        tracks(s, s.record_activity(address, tx)),
{
    let t = s.record_activity(address, tx);
    if s.history(address).contains(tx) {
        lemma_tracks_itself(s);
    } else {
        assert(t.pending.take(s.pending.len() as int) =~= s.pending);
        assert forall|key: Key| held(t, key) != held(s, key) implies written_in(
            t.pending,
            s.pending.len() as int,
            key,
        ) by {
            assert(key == Key::Activity(address));
            assert(t.pending[s.pending.len() as int].key_of() == key);
        }
    }
}

/// Recording a non-empty block tells what it changes.
pub proof fn lemma_tracks_record_non_empty(s: StoreView, n: u64)
    ensures
        tracks(s, s.record_non_empty(n)),
{
    let t = s.record_non_empty(n);
    if s.non_empty.contains(n) {
        lemma_tracks_itself(s);
    } else {
        assert(t.pending.take(s.pending.len() as int) =~= s.pending);
        assert forall|key: Key| #![auto] held(s, key) is Some implies held(t, key) is Some by {
            match key {
                Key::NonEmptyBlock(m) => {
                    lemma_with_block_members(s.non_empty, n, m);
                },
                _ => {},
            }
        }
        assert forall|key: Key| held(t, key) != held(s, key) implies written_in(
            t.pending,
            s.pending.len() as int,
            key,
        ) by {
            match key {
                Key::NonEmptyBlock(m) => {
                    lemma_with_block_members(s.non_empty, n, m);
                },
                _ => {},
            }
            assert(key == Key::NonEmptyBlock(n));
            assert(t.pending[s.pending.len() as int].key_of() == key);
        }
        lemma_with_block_members(s.non_empty, n, n);
    }
}

/// Moving the cursor tells what it changes.
pub proof fn lemma_tracks_advance(s: StoreView, to: u64)
    ensures
        tracks(s, s.advance(to)),
{
    let t = s.advance(to);
    if to > s.cursor {
        assert(t.pending.take(s.pending.len() as int) =~= s.pending);
        assert forall|key: Key| held(t, key) != held(s, key) implies written_in(
            t.pending,
            s.pending.len() as int,
            key,
        ) by {
            assert(key == Key::Cursor);
            assert(t.pending[s.pending.len() as int].key_of() == key);
        }
    } else {
        lemma_tracks_itself(s);
    }
}

/// Registering a contract tells what it changes.
pub proof fn lemma_tracks_register(s: StoreView, address: Address, record: ContractRecordView)
    ensures
        tracks(s, s.register(address, record)),
{
    let t = s.register(address, record);
    assert(t.pending.take(s.pending.len() as int) =~= s.pending);
    assert forall|key: Key| held(t, key) != held(s, key) implies written_in(
        t.pending,
        s.pending.len() as int,
        key,
    ) by {
        assert(key == Key::Contract(address));
        assert(t.pending[s.pending.len() as int].key_of() == key);
    }
}

/// Recording a transaction for some addresses tells what it changes.
pub proof fn lemma_tracks_record_all(s: StoreView, addresses: Seq<Address>, tx: H256)
    ensures
        tracks(s, record_all(s, addresses, tx)),
    decreases addresses.len(),
{
    if addresses.len() == 0 {
        lemma_tracks_itself(s);
    } else {
        let mid = record_all(s, addresses.drop_last(), tx);
        lemma_tracks_record_all(s, addresses.drop_last(), tx);
        lemma_tracks_record_activity(mid, addresses.last(), tx);
        lemma_tracks_chain(s, mid, mid.record_activity(addresses.last(), tx));
    }
}

/// The index writes of a block tell what they change.
pub proof fn lemma_tracks_index_block(s: StoreView, n: u64, block: Seq<TxActivityView>)
    ensures
        tracks(s, index_txs(s, block)),
        tracks(s, index_block(s, n, block)),
    decreases block.len(),
{
    if block.len() == 0 {
        lemma_tracks_itself(s);
    } else {
        let mid = index_txs(s, block.drop_last());
        let end = index_txs(s, block);
        lemma_tracks_index_block(s, n, block.drop_last());
        lemma_tracks_record_all(mid, block.last().participants(), block.last().hash);
        lemma_tracks_chain(s, mid, end);
        lemma_tracks_record_non_empty(end, n);
        lemma_tracks_chain(s, end, end.record_non_empty(n));
    }
}

/// What recording activity leaves under a key depends on what the store
/// held under that key, and on nothing else that it held.
pub proof fn lemma_record_activity_keywise(s: StoreView, t: StoreView, address: Address, tx: H256, key: Key)
    requires
        held(s, key) == held(t, key),
    ensures
        held(s.record_activity(address, tx), key) == held(t.record_activity(address, tx), key),
{
}

/// What recording a transaction for some addresses leaves under a key
/// depends on what the store held under that key alone.
pub proof fn lemma_record_all_keywise(s: StoreView, t: StoreView, addresses: Seq<Address>, tx: H256, key: Key)
    requires
        held(s, key) == held(t, key),
    ensures
        held(record_all(s, addresses, tx), key) == held(record_all(t, addresses, tx), key),
    decreases addresses.len(),
{
    if addresses.len() > 0 {
        lemma_record_all_keywise(s, t, addresses.drop_last(), tx, key);
        lemma_record_activity_keywise(
            record_all(s, addresses.drop_last(), tx),
            record_all(t, addresses.drop_last(), tx),
            addresses.last(),
            tx,
            key,
        );
    }
}

/// What the index writes of a block leave under a key depends on what
/// the store held under that key alone.
pub proof fn lemma_index_block_keywise(s: StoreView, t: StoreView, n: u64, block: Seq<TxActivityView>, key: Key)
    requires
        held(s, key) == held(t, key),
    ensures
        held(index_txs(s, block), key) == held(index_txs(t, block), key),
        held(index_block(s, n, block), key) == held(index_block(t, n, block), key),
    decreases block.len(),
{
    if block.len() > 0 {
        lemma_index_block_keywise(s, t, n, block.drop_last(), key);
        let sm = index_txs(s, block.drop_last());
        let tm = index_txs(t, block.drop_last());
        lemma_record_all_keywise(sm, tm, block.last().participants(), block.last().hash, key);
        let se = index_txs(s, block);
        let te = index_txs(t, block);
        match key {
            Key::NonEmptyBlock(m) => {
                lemma_with_block_members(se.non_empty, n, m);
                lemma_with_block_members(te.non_empty, n, m);
            },
            _ => {},
        }
    }
}

/// The store after the scanner indexed `block` as the block at the cursor
/// and moved the cursor on.
pub open spec fn after_block(s: StoreView, block: Seq<TxActivityView>) -> StoreView {
    index_block(s, s.cursor, block).advance((s.cursor + 1) as u64)
}

/// A step of the scanner on the block at the cursor leaves the store of
/// [`after_block`].
pub proof fn lemma_step_indexes_block(sc: Scanner, s: StoreView, block: Seq<TxActivityView>)
    requires
        sc.state != ScanState::Stopped,
        sc.pending == ScanAction::FetchBlock(s.cursor),
        s.cursor < u64::MAX,
    ensures
        sc.step_spec(s, ScanEventView::BlockFound(block)).store == after_block(s, block),
{
}

/// Writing through keeps the durable copy in step: where it holds what a
/// store held with nothing pending, and every pending change since then
/// is written through, it holds what the store holds now.
pub proof fn lemma_write_through(disk: Map<Key, Stored>, s0: StoreView, s1: StoreView, genesis: u64)
    requires
        mirrors(disk, s0, genesis),
        s0.pending.len() == 0,
        tracks(s0, s1),
    ensures
        mirrors(flushed(disk, s1, s1.pending), s1, genesis),
{
    let after = flushed(disk, s1, s1.pending);
    assert forall|key: Key| key != Key::Cursor implies (if after.contains_key(key) {
        held(s1, key) == Some(after[key])
    } else {
        held(s1, key) is None
    }) by {
        lemma_flushed(disk, s1, s1.pending, key);
        if !written_in(s1.pending, 0, key) {
            assert(held(s1, key) == held(s0, key));
        } else {
            let i = choose|i: int|
                0 <= i < s1.pending.len() && (#[trigger] s1.pending[i]).key_of() == key;
            assert(held(s1, s1.pending[i].key_of()) is Some);
        }
    }
    lemma_flushed(disk, s1, s1.pending, Key::Cursor);
    if !written_in(s1.pending, 0, Key::Cursor) {
        assert(held(s1, Key::Cursor) == held(s0, Key::Cursor));
    }
}

/// A stop while a block is written through does no harm. Let the durable
/// copy hold what a store holds, let the scanner index a block at the
/// cursor and move the cursor, and let only the first `j` of the pending
/// changes reach the durable copy, each under its key with what the
/// store holds there. Then a store `r` that is read back from the copy
/// either holds what the store after the block holds, where every change
/// arrived; or it stands at the cursor of the block and holds, once the
/// block is indexed again and the cursor moved, what the store after the
/// block holds: no transaction is lost, none is recorded twice, and the
/// cursor is never ahead of what was written.
pub proof fn lemma_stop_while_writing(
    disk: Map<Key, Stored>,
    s0: StoreView,
    genesis: u64,
    block: Seq<TxActivityView>,
    j: int,
    r: StoreView,
)
    requires
        mirrors(disk, s0, genesis),
        s0.pending.len() == 0,
        s0.cursor < u64::MAX,
        0 <= j <= after_block(s0, block).pending.len(),
        mirrors(
            flushed(disk, after_block(s0, block), after_block(s0, block).pending.take(j)),
            r,
            genesis,
        ),
    ensures
        j == after_block(s0, block).pending.len() ==> same_content(r, after_block(s0, block)),
        j < after_block(s0, block).pending.len() ==> r.cursor == s0.cursor && same_content(
            after_block(r, block),
            after_block(s0, block),
        ),
{
    let n = s0.cursor;
    let indexed = index_block(s0, n, block);
    let s1 = after_block(s0, block);
    let writes = s1.pending.take(j);
    let copy = flushed(disk, s1, writes);
    lemma_index_txs_keeps_cursor(s0, block);
    lemma_index_block_pending(s0, n, block);
    lemma_tracks_index_block(s0, n, block);
    lemma_tracks_advance(indexed, (n + 1) as u64);
    lemma_tracks_chain(s0, indexed, s1);
    assert(s1.pending == indexed.pending.push(IndexWrite::Cursor((n + 1) as u64)));
    assert(forall|key: Key| key != Key::Cursor ==> held(s1, key) == held(indexed, key));
    if j == s1.pending.len() {
        assert(writes =~= s1.pending);
        lemma_write_through(disk, s0, s1, genesis);
        assert(copy.contains_key(Key::Cursor)) by {
            lemma_flushed(disk, s1, s1.pending, Key::Cursor);
            assert(s1.pending[s1.pending.len() - 1].key_of() == Key::Cursor);
        }
        assert forall|key: Key| held(r, key) == held(s1, key) by {}
    } else {
        assert forall|i: int| 0 <= i < writes.len() implies (#[trigger] writes[i]) is Activity
            || writes[i] is NonEmptyBlock by {
            assert(writes[i] == indexed.pending[i]);
        }
        assert(!written_in(writes, 0, Key::Cursor)) by {
            if written_in(writes, 0, Key::Cursor) {
                let i = choose|i: int|
                    0 <= i < writes.len() && (#[trigger] writes[i]).key_of() == Key::Cursor;
                assert(writes[i] is Activity || writes[i] is NonEmptyBlock);
            }
        }
        lemma_flushed(disk, s1, writes, Key::Cursor);
        assert(r.cursor == s0.cursor);
        let again = index_block(r, n, block);
        lemma_index_txs_keeps_cursor(r, block);
        assert forall|key: Key| held(after_block(r, block), key) == held(s1, key) by {
            lemma_flushed(disk, s1, writes, key);
            match key {
                Key::Cursor => {},
                Key::Contract(_) => {
                    assert(!written_in(writes, 0, key)) by {
                        if written_in(writes, 0, key) {
                            let i = choose|i: int|
                                0 <= i < writes.len() && (#[trigger] writes[i]).key_of() == key;
                            assert(writes[i] is Activity || writes[i] is NonEmptyBlock);
                        }
                    }
                    assert(held(r, key) == held(s0, key));
                },
                _ => {
                    if written_in(writes, 0, key) && held(s1, key) is Some {
                        assert(held(r, key) == held(indexed, key));
                        lemma_index_block_keywise(r, indexed, n, block, key);
                        lemma_index_block_idempotent(s0, n, block);
                    } else {
                        assert(held(r, key) == held(s0, key));
                        lemma_index_block_keywise(r, s0, n, block, key);
                    }
                    assert(held(again, key) == held(indexed, key));
                },
            }
        }
    }
}

/// The key under which `entry` is kept.
pub open spec fn entry_key(entry: StoredEntryView) -> Key {
    match entry {
        StoredEntryView::Cursor(_) => Key::Cursor,
        StoredEntryView::History(address, _) => Key::Activity(address),
        StoredEntryView::NonEmptyBlock(n) => Key::NonEmptyBlock(n),
        StoredEntryView::Contract(address, _) => Key::Contract(address),
    }
}

/// What is kept under the key of `entry`.
pub open spec fn entry_value(entry: StoredEntryView) -> Stored {
    match entry {
        StoredEntryView::Cursor(cursor) => Stored::Cursor(cursor),
        StoredEntryView::History(_, txs) => Stored::History(txs),
        StoredEntryView::NonEmptyBlock(_) => Stored::Marker,
        StoredEntryView::Contract(_, record) => Stored::Contract(record),
    }
}

/// The key under which `entry` is kept.
pub fn key_of_entry(entry: &StoredEntry) -> (key: Key)
    ensures
        key == entry_key(entry@),
{
    match entry {
        StoredEntry::Cursor(_) => Key::Cursor,
        StoredEntry::History(address, _) => Key::Activity(*address),
        StoredEntry::NonEmptyBlock(n) => Key::NonEmptyBlock(*n),
        StoredEntry::Contract(address, _) => Key::Contract(*address),
    }
}

/// Hands out what is to be written through: for each pending change, in
/// order, the key of the change with what the store holds under it now.
/// Nothing is pending afterwards.
pub fn take_durable(store: &mut IndexStore) -> (entries: Vec<StoredEntry>)
    requires
        old(store).wf(),
    ensures
        final(store).wf(),
        final(store)@ == old(store)@.settled(),
        entries@.len() == old(store)@.pending.len(),
        forall|i: int|
            0 <= i < entries@.len() ==> entry_key((#[trigger] entries@[i])@)
                == old(store)@.pending[i].key_of() && held(old(store)@, entry_key(entries@[i]@))
                == Some(entry_value(entries@[i]@)),
{
    proof {
        store.lemma_invariants();
    }
    let ghost before = store@;
    let writes = store.take_pending();
    let mut entries: Vec<StoredEntry> = Vec::new();
    let mut i: usize = 0;
    while i < writes.len()
        invariant
            store.wf(),
            store@ == before.settled(),
            writes@ == before.pending,
            pending_held(before),
            i <= writes@.len(),
            entries@.len() == i,
            forall|j: int|
                0 <= j < i ==> entry_key((#[trigger] entries@[j])@) == before.pending[j].key_of()
                    && held(before, entry_key(entries@[j]@)) == Some(entry_value(entries@[j]@)),
        decreases writes@.len() - i,
    {
        proof {
            assert(held(before, before.pending[i as int].key_of()) is Some);
        }
        let entry = match writes[i] {
            IndexWrite::Activity { address, .. } => StoredEntry::History(
                address,
                store.iter_address_activity(&address),
            ),
            IndexWrite::NonEmptyBlock(n) => StoredEntry::NonEmptyBlock(n),
            IndexWrite::Cursor(_) => StoredEntry::Cursor(store.get_cursor()),
            IndexWrite::Contract(address) => match store.get_contract(&address) {
                Some(record) => StoredEntry::Contract(address, record.duplicate()),
                None => StoredEntry::Cursor(store.get_cursor()),
            },
        };
        entries.push(entry);
        i += 1;
    }
    entries
}

/// The store after the change `write` was made in it as it was made in
/// the store `from`: what the change added is added here, and a contract
/// is registered as `from` holds it.
pub open spec fn with_write(s: StoreView, write: IndexWrite, from: StoreView) -> StoreView {
    match write {
        IndexWrite::Activity { address, tx_hash } => s.record_activity(address, tx_hash),
        IndexWrite::NonEmptyBlock(n) => s.record_non_empty(n),
        IndexWrite::Cursor(to) => s.advance(to),
        IndexWrite::Contract(address) => if from.contracts.contains_key(address) {
            s.register(address, from.contracts[address])
        } else {
            s
        },
    }
}

/// The store after each of `writes` was made in it as it was made in
/// `from`, in order.
pub open spec fn with_writes(s: StoreView, writes: Seq<IndexWrite>, from: StoreView) -> StoreView
    decreases writes.len(),
{
    if writes.len() == 0 {
        s
    } else {
        with_write(with_writes(s, writes.drop_last(), from), writes.last(), from)
    }
}

/// Lets `store` follow the store `from`: makes in it each of `writes`,
/// the changes that were made in `from`, in their order, and leaves
/// nothing pending. A second copy of a store is kept up with the first
/// in this way, at the cost of the changes and not of the store.
pub fn follow(store: &mut IndexStore, writes: &Vec<IndexWrite>, from: &IndexStore)
    requires
        old(store).wf(),
        from.wf(),
    ensures
        final(store).wf(),
        final(store)@ == with_writes(old(store)@, writes@, from@).settled(),
{
    let ghost start = store@;
    let mut i: usize = 0;
    proof {
        assert(writes@.take(0) =~= Seq::<IndexWrite>::empty());
    }
    while i < writes.len()
        invariant
            store.wf(),
            from.wf(),
            i <= writes@.len(),
            store@ == with_writes(start, writes@.take(i as int), from@),
        decreases writes@.len() - i,
    {
        proof {
            assert(writes@.take(i + 1).drop_last() =~= writes@.take(i as int));
        }
        match writes[i] {
            IndexWrite::Activity { address, tx_hash } => {
                store.record_address_activity(address, tx_hash);
            },
            IndexWrite::NonEmptyBlock(n) => {
                store.record_non_empty_block(n);
            },
            IndexWrite::Cursor(to) => {
                let _ = store.advance_cursor(to);
            },
            IndexWrite::Contract(address) => {
                match from.get_contract(&address) {
                    Some(record) => {
                        store.set_contract(address, record.duplicate());
                    },
                    None => {},
                }
            },
        }
        i += 1;
    }
    proof {
        assert(writes@.take(i as int) =~= writes@);
    }
    store.take_pending();
}

/// One change that is asked of the store.
pub enum Change {
    /// Record a transaction for an address.
    Activity(Address, H256),
    /// Record a block as non-empty.
    NonEmptyBlock(u64),
    /// Move the cursor.
    Cursor(u64),
    /// Register a contract for an address.
    Contract(Address, ContractRecordView),
}

/// The store after `change` was asked of it.
pub open spec fn changed(s: StoreView, change: Change) -> StoreView {
    match change {
        Change::Activity(address, tx) => s.record_activity(address, tx),
        Change::NonEmptyBlock(n) => s.record_non_empty(n),
        Change::Cursor(to) => s.advance(to),
        Change::Contract(address, record) => s.register(address, record),
    }
}

/// The store after each of `changes` was asked of it, in order.
pub open spec fn changed_all(s: StoreView, changes: Seq<Change>) -> StoreView
    decreases changes.len(),
{
    if changes.len() == 0 {
        s
    } else {
        changed(changed_all(s, changes.drop_last()), changes.last())
    }
}

/// Whether one of `changes` registers a contract for `address`.
spec fn registered_in(changes: Seq<Change>, address: Address) -> bool {
    exists|j: int|
        0 <= j < changes.len() && (#[trigger] changes[j]) is Contract && changes[j]->Contract_0
            == address
}

/// Whether the follower `u` holds for `address` the contract that the
/// store `s` holds, or holds already what the store holds in the `end`,
/// after the changes `rest` have registered one for the address once
/// more.
spec fn contract_follows(
    u: StoreView,
    s: StoreView,
    end: StoreView,
    rest: Seq<Change>,
    address: Address,
) -> bool {
    held(u, Key::Contract(address)) == held(s, Key::Contract(address)) || (held(
        u,
        Key::Contract(address),
    ) == held(end, Key::Contract(address)) && registered_in(rest, address))
}

/// Changes are made one after another: the first, then the rest.
proof fn lemma_changed_first(s: StoreView, first: Change, rest: Seq<Change>)
    ensures
        changed_all(s, seq![first] + rest) == changed_all(changed(s, first), rest),
    decreases rest.len(),
{
    let all = seq![first] + rest;
    if rest.len() == 0 {
        assert(all.drop_last() =~= Seq::<Change>::empty());
        assert(all.last() == first);
        assert(changed_all(s, all.drop_last()) == s);
        assert(changed_all(s, all) == changed(s, first));
    } else {
        lemma_changed_first(s, first, rest.drop_last());
        assert(all.drop_last() =~= seq![first] + rest.drop_last());
        assert(all.last() == rest.last());
    }
}

/// A contract stays as it is while no change registers one for its
/// address, and a registered contract stays registered under any change.
proof fn lemma_contract_stays(s: StoreView, changes: Seq<Change>, address: Address)
    ensures
        !registered_in(changes, address) ==> held(changed_all(s, changes), Key::Contract(address))
            == held(s, Key::Contract(address)),
        s.contracts.contains_key(address) ==> changed_all(s, changes).contracts.contains_key(
            address,
        ),
    decreases changes.len(),
{
    if changes.len() > 0 {
        let before = changes.drop_last();
        lemma_contract_stays(s, before, address);
        if !registered_in(changes, address) {
            assert(!registered_in(before, address)) by {
                if registered_in(before, address) {
                    let j = choose|j: int|
                        0 <= j < before.len() && (#[trigger] before[j]) is Contract
                            && before[j]->Contract_0 == address;
                    assert(changes[j] == before[j]);
                }
            }
            assert(changes[changes.len() - 1] == changes.last());
        }
    }
}

/// Where a follower stands while the store it follows is changed: after
/// the changes `done`, of which it has made the writes, and before the
/// changes `rest`. It holds what the store holds after `done`, but for
/// the contracts that `rest` registers once more: of those it may hold
/// already what the store holds in the end.
proof fn lemma_follows(s0: StoreView, t: StoreView, done: Seq<Change>, rest: Seq<Change>)
    requires
        same_content(t, s0),
    ensures
        ({
            let s = changed_all(s0, done);
            let end = changed_all(s, rest);
            let u = with_writes(t, s.pending.skip(s0.pending.len() as int), end);
            &&& s0.pending.len() <= s.pending.len()
            &&& u.cursor == s.cursor
            &&& forall|a: Address| #[trigger]
                held(u, Key::Activity(a)) == held(s, Key::Activity(a))
            &&& forall|n: u64| #[trigger] u.non_empty.contains(n) == s.non_empty.contains(n)
            &&& forall|a: Address| #[trigger] contract_follows(u, s, end, rest, a)
        }),
    decreases done.len(),
{
    let p0 = s0.pending.len() as int;
    if done.len() == 0 {
        assert(s0.pending.skip(p0) =~= Seq::<IndexWrite>::empty());
        let end = changed_all(s0, rest);
        assert(with_writes(t, Seq::<IndexWrite>::empty(), end) == t);
        assert(t.cursor == s0.cursor) by {
            assert(held(t, Key::Cursor) == held(s0, Key::Cursor));
        }
        assert forall|n: u64| t.non_empty.contains(n) == s0.non_empty.contains(n) by {
            assert(held(t, Key::NonEmptyBlock(n)) == held(s0, Key::NonEmptyBlock(n)));
        }
        assert forall|a: Address| #[trigger] contract_follows(t, s0, end, rest, a) by {
            assert(held(t, Key::Contract(a)) == held(s0, Key::Contract(a)));
        }
    } else {
        let last = done.last();
        let sp = changed_all(s0, done.drop_last());
        let s = changed(sp, last);
        let end = changed_all(s, rest);
        let follows = seq![last] + rest;
        lemma_follows(s0, t, done.drop_last(), follows);
        lemma_changed_first(sp, last, rest);
        assert(changed_all(sp, follows) == end);
        let wp = sp.pending.skip(p0);
        let up = with_writes(t, wp, end);
        let w = s.pending.skip(p0);
        let u = with_writes(t, w, end);
        assert forall|a: Address| registered_in(follows, a) && !(last is Contract
            && last->Contract_0 == a) implies registered_in(rest, a) by {
            let j = choose|j: int|
                0 <= j < follows.len() && (#[trigger] follows[j]) is Contract
                    && follows[j]->Contract_0 == a;
            assert(j > 0);
            assert(rest[j - 1] == follows[j]);
        }
        if s.pending == sp.pending {
            assert(s == sp);
            assert(u == up);
            assert forall|a: Address| #[trigger] contract_follows(u, s, end, rest, a) by {
                assert(contract_follows(up, sp, end, follows, a));
            }
        } else {
            let wr = s.pending.last();
            assert(s.pending == sp.pending.push(wr));
            assert(w =~= wp.push(wr));
            assert(w.drop_last() =~= wp);
            assert(u == with_write(up, wr, end));
            match last {
                Change::Activity(address, tx) => {
                    assert(held(up, Key::Activity(address)) == held(sp, Key::Activity(address)));
                    assert(u == up.record_activity(address, tx));
                    assert forall|a: Address| #[trigger]
                        held(u, Key::Activity(a)) == held(s, Key::Activity(a)) by {
                        assert(held(up, Key::Activity(a)) == held(sp, Key::Activity(a)));
                    }
                    assert forall|a: Address| #[trigger] contract_follows(u, s, end, rest, a) by {
                        assert(contract_follows(up, sp, end, follows, a));
                    }
                },
                Change::NonEmptyBlock(n) => {
                    assert(up.non_empty.contains(n) == sp.non_empty.contains(n));
                    assert(u == up.record_non_empty(n));
                    assert forall|m: u64| #[trigger]
                        u.non_empty.contains(m) == s.non_empty.contains(m) by {
                        lemma_with_block_members(up.non_empty, n, m);
                        lemma_with_block_members(sp.non_empty, n, m);
                        assert(up.non_empty.contains(m) == sp.non_empty.contains(m));
                    }
                    assert forall|a: Address| #[trigger]
                        held(u, Key::Activity(a)) == held(s, Key::Activity(a)) by {
                        assert(held(up, Key::Activity(a)) == held(sp, Key::Activity(a)));
                    }
                    assert forall|a: Address| #[trigger] contract_follows(u, s, end, rest, a) by {
                        assert(contract_follows(up, sp, end, follows, a));
                    }
                },
                Change::Cursor(to) => {
                    assert(u == up.advance(to));
                    assert forall|a: Address| #[trigger]
                        held(u, Key::Activity(a)) == held(s, Key::Activity(a)) by {
                        assert(held(up, Key::Activity(a)) == held(sp, Key::Activity(a)));
                    }
                    assert forall|m: u64| #[trigger]
                        u.non_empty.contains(m) == s.non_empty.contains(m) by {
                        assert(up.non_empty.contains(m) == sp.non_empty.contains(m));
                    }
                    assert forall|a: Address| #[trigger] contract_follows(u, s, end, rest, a) by {
                        assert(contract_follows(up, sp, end, follows, a));
                    }
                },
                Change::Contract(address, record) => {
                    lemma_contract_stays(s, rest, address);
                    assert(s.contracts.contains_key(address));
                    assert(end.contracts.contains_key(address));
                    assert(u == up.register(address, end.contracts[address]));
                    assert forall|a: Address| #[trigger]
                        held(u, Key::Activity(a)) == held(s, Key::Activity(a)) by {
                        assert(held(up, Key::Activity(a)) == held(sp, Key::Activity(a)));
                    }
                    assert forall|m: u64| #[trigger]
                        u.non_empty.contains(m) == s.non_empty.contains(m) by {
                        assert(up.non_empty.contains(m) == sp.non_empty.contains(m));
                    }
                    assert forall|a: Address| #[trigger] contract_follows(u, s, end, rest, a) by {
                        if a != address {
                            assert(contract_follows(up, sp, end, follows, a));
                            assert(held(u, Key::Contract(a)) == held(up, Key::Contract(a)));
                            assert(held(s, Key::Contract(a)) == held(sp, Key::Contract(a)));
                        } else {
                            assert(held(u, Key::Contract(a)) == held(end, Key::Contract(a)));
                        }
                    }
                },
            }
        }
    }
}

/// A second copy of a store that follows the first holds what the first
/// holds: where both hold the same, and any changes are then asked of
/// the first, the second holds the same again once it has been let
/// [`follow`] the changes that the first made, whatever it holds
/// pending itself.
pub proof fn lemma_follower_holds_the_same(first: StoreView, second: StoreView, changes: Seq<Change>)
    requires
        same_content(second, first),
    ensures
        first.pending.len() <= changed_all(first, changes).pending.len(),
        same_content(
            with_writes(
                second,
                changed_all(first, changes).pending.skip(first.pending.len() as int),
                changed_all(first, changes),
            ).settled(),
            changed_all(first, changes),
        ),
{
    let end = changed_all(first, changes);
    let u = with_writes(second, end.pending.skip(first.pending.len() as int), end);
    lemma_follows(first, second, changes, Seq::empty());
    assert(changed_all(end, Seq::<Change>::empty()) == end);
    assert forall|key: Key| held(u.settled(), key) == held(end, key) by {
        match key {
            Key::Cursor => {},
            Key::Activity(a) => {
                assert(held(u, Key::Activity(a)) == held(end, Key::Activity(a)));
            },
            Key::NonEmptyBlock(n) => {
                assert(u.non_empty.contains(n) == end.non_empty.contains(n));
            },
            Key::Contract(a) => {
                assert(contract_follows(u, end, end, Seq::empty(), a));
            },
        }
    }
}

/// The durable copy that holds `entries`, each under its key.
pub open spec fn copy_of(entries: Seq<StoredEntryView>) -> Map<Key, Stored>
    decreases entries.len(),
{
    if entries.len() == 0 {
        Map::empty()
    } else {
        copy_of(entries.drop_last()).insert(entry_key(entries.last()), entry_value(entries.last()))
    }
}

/// Whether `entries` are what is read back from a durable copy that was
/// written through from a store that began at `genesis`: one entry under
/// each key, no history empty or with a transaction twice, and no cursor
/// before `genesis`.
pub open spec fn read_back(entries: Seq<StoredEntryView>, genesis: u64) -> bool {
    &&& forall|i: int, j: int|
        0 <= i < j < entries.len() ==> entry_key(#[trigger] entries[i]) != entry_key(
            #[trigger] entries[j],
        )
    &&& forall|i: int|
        0 <= i < entries.len() ==> match #[trigger] entries[i] {
            StoredEntryView::History(_, txs) => txs.len() > 0 && distinct(txs),
            StoredEntryView::Cursor(cursor) => cursor >= genesis,
            _ => true,
        }
}

/// A durable copy holds something under a key where one of its entries
/// has that key.
proof fn lemma_copy_of_keys(entries: Seq<StoredEntryView>, key: Key)
    ensures
        copy_of(entries).contains_key(key) <==> exists|i: int|
            0 <= i < entries.len() && entry_key(#[trigger] entries[i]) == key,
    decreases entries.len(),
{
    if entries.len() > 0 {
        let front = entries.drop_last();
        lemma_copy_of_keys(front, key);
        if copy_of(entries).contains_key(key) {
            if entry_key(entries.last()) == key {
                assert(entry_key(entries[entries.len() - 1]) == key);
            } else {
                let i = choose|i: int| 0 <= i < front.len() && entry_key(#[trigger] front[i]) == key;
                assert(entry_key(entries[i]) == key);
            }
        }
        if exists|i: int| 0 <= i < entries.len() && entry_key(#[trigger] entries[i]) == key {
            let i = choose|i: int| 0 <= i < entries.len() && entry_key(#[trigger] entries[i]) == key;
            if i < front.len() {
                assert(entry_key(front[i]) == key);
            }
        }
    }
}

/// A history that is read back into a store without one is the history
/// of its address afterwards, and nothing else has changed.
proof fn lemma_record_history_fresh(s: StoreView, address: Address, txs: Seq<H256>)
    requires
        !s.activity.contains_key(address),
        distinct(txs),
    ensures
        record_history(s, address, txs).history(address) == txs,
        txs.len() > 0 ==> record_history(s, address, txs).activity.contains_key(address),
        txs.len() == 0 ==> record_history(s, address, txs) == s,
        forall|key: Key|
            key != Key::Activity(address) ==> held(record_history(s, address, txs), key) == held(
                s,
                key,
            ),
    decreases txs.len(),
{
    if txs.len() > 0 {
        let front = txs.drop_last();
        assert forall|i: int, j: int| 0 <= i < j < front.len() implies front[i] != front[j] by {
            assert(txs[i] != txs[j]);
        }
        lemma_record_history_fresh(s, address, front);
        let mid = record_history(s, address, front);
        assert(!mid.history(address).contains(txs.last())) by {
            if front.contains(txs.last()) {
                let i = choose|i: int| 0 <= i < front.len() && front[i] == txs.last();
                assert(txs[i] != txs[txs.len() - 1]);
            }
        }
        assert(front.push(txs.last()) =~= txs);
    }
}

/// What is read back mirrors the durable copy: a store that is restored
/// from the entries of a durable copy holds what the copy holds.
pub proof fn lemma_restored_mirrors(genesis: u64, entries: Seq<StoredEntryView>)
    requires
        read_back(entries, genesis),
    ensures
        mirrors(copy_of(entries), with_entries(StoreView::empty(genesis), entries).settled(), genesis),
    decreases entries.len(),
{
    let start = StoreView::empty(genesis);
    if entries.len() == 0 {
        assert forall|key: Key| key != Key::Cursor implies held(start.settled(), key) is None by {}
    } else {
        let front = entries.drop_last();
        let last = entries.last();
        assert(read_back(front, genesis)) by {
            assert forall|i: int, j: int| 0 <= i < j < front.len() implies entry_key(
                #[trigger] front[i],
            ) != entry_key(#[trigger] front[j]) by {
                assert(entry_key(entries[i]) != entry_key(entries[j]));
            }
            assert forall|i: int| 0 <= i < front.len() implies match #[trigger] front[i] {
                StoredEntryView::History(_, txs) => txs.len() > 0 && distinct(txs),
                StoredEntryView::Cursor(cursor) => cursor >= genesis,
                _ => true,
            } by {
                assert(front[i] == entries[i]);
            }
        }
        lemma_restored_mirrors(genesis, front);
        let before = with_entries(start, front);
        let after = with_entries(start, entries);
        let disk = copy_of(front);
        let key = entry_key(last);
        assert(!disk.contains_key(key)) by {
            lemma_copy_of_keys(front, key);
            if exists|i: int| 0 <= i < front.len() && entry_key(#[trigger] front[i]) == key {
                let i = choose|i: int| 0 <= i < front.len() && entry_key(#[trigger] front[i]) == key;
                assert(entry_key(entries[i]) != entry_key(entries[entries.len() - 1]));
            }
        }
        assert(entries[entries.len() - 1] == last);
        match last {
            StoredEntryView::Cursor(cursor) => {
                assert(before.settled().cursor == genesis);
            },
            StoredEntryView::History(address, txs) => {
                assert(held(before.settled(), key) is None);
                lemma_record_history_fresh(before, address, txs);
            },
            StoredEntryView::NonEmptyBlock(n) => {
                assert(held(before.settled(), key) is None);
                assert forall|other: Key| other != key implies held(after, other) == held(
                    before,
                    other,
                ) by {
                    match other {
                        Key::NonEmptyBlock(m) => {
                            lemma_with_block_members(before.non_empty, n, m);
                        },
                        _ => {},
                    }
                }
                lemma_with_block_members(before.non_empty, n, n);
            },
            StoredEntryView::Contract(address, record) => {},
        }
        assert forall|other: Key| other != key implies held(after, other) == held(before, other) by {}
        assert forall|other: Key| other != Key::Cursor implies (if copy_of(entries).contains_key(
            other,
        ) {
            held(after.settled(), other) == Some(copy_of(entries)[other])
        } else {
            held(after.settled(), other) is None
        }) by {
            if other != key {
                assert(held(after, other) == held(before, other));
                assert(held(before.settled(), other) == held(before, other));
            }
        }
        if key == Key::Cursor {
            assert(copy_of(entries)[Key::Cursor] == Stored::Cursor(after.settled().cursor));
        } else {
            assert(held(after, Key::Cursor) == held(before, Key::Cursor));
            assert(after.settled().cursor == before.settled().cursor);
        }
    }
}

} // verus!
