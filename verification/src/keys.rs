//! The keys under which the store is kept in an ordered key-value space:
//! one key for the cursor, one for the history of each address, one for
//! each non-empty block, one for the contract of each address.
//!
//! A key is a tag for its kind and then what it names. Keys of different
//! kinds never meet, and the keys of the non-empty blocks stand in the
//! order of the block numbers.

use vstd::prelude::*;
use crate::db::IndexWrite;
use crate::types::Address;

verus! {

/// What a key names.
#[derive(Clone, Copy, Debug, PartialEq, Eq)]
pub enum Key {
    /// The cursor.
    Cursor,
    /// The history of an address.
    Activity(Address),
    /// A non-empty block.
    NonEmptyBlock(u64),
    /// The contract of an address.
    Contract(Address),
}

/// The tag of the cursor's key.
pub const TAG_CURSOR: u8 = 0x63;

/// The tag of the key of a history.
pub const TAG_ACTIVITY: u8 = 0x61;

/// The tag of the key of a non-empty block.
pub const TAG_BLOCK: u8 = 0x62;

/// The tag of the key of a contract.
pub const TAG_CONTRACT: u8 = 0x6b;

/// The number that `bytes` write, the most significant byte first.
pub open spec fn be_value(bytes: Seq<u8>) -> nat
    decreases bytes.len(),
{
    if bytes.len() == 0 {
        0
    } else {
        256 * be_value(bytes.drop_last()) + bytes.last() as nat
    }
}

/// The `len` bytes that write `n`, the most significant first.
pub open spec fn be_bytes_of(n: nat, len: nat) -> Seq<u8>
    decreases len,
{
    if len == 0 {
        Seq::empty()
    } else {
        be_bytes_of(n / 256, (len - 1) as nat).push((n % 256) as u8)
    }
}

/// The eight bytes that write `n`, the most significant first.
pub open spec fn be_bytes(n: u64) -> Seq<u8> {
    be_bytes_of(n as nat, 8)
}

/// 256 to the power of `e`.
pub open spec fn pow256(e: nat) -> nat
    decreases e,
{
    if e == 0 {
        1
    } else {
        256 * pow256((e - 1) as nat)
    }
}

/// The key that names `key`.
pub open spec fn key_bytes(key: Key) -> Seq<u8> {
    match key {
        Key::Cursor => seq![TAG_CURSOR],
        Key::Activity(address) => seq![TAG_ACTIVITY] + address.0@,
        Key::NonEmptyBlock(n) => seq![TAG_BLOCK] + be_bytes(n),
        Key::Contract(address) => seq![TAG_CONTRACT] + address.0@,
    }
}

/// Whether `a` stands before `b` in the order of the key-value space:
/// byte by byte, a shorter key before its extensions.
pub open spec fn key_less(a: Seq<u8>, b: Seq<u8>) -> bool {
    exists|k: int| stands_before_at(a, b, k)
}

/// Whether `a` and `b` agree before place `k`, and there `a` ends and `b`
/// goes on, or holds the smaller byte.
pub open spec fn stands_before_at(a: Seq<u8>, b: Seq<u8>, k: int) -> bool {
    &&& 0 <= k <= a.len()
    &&& k < b.len()
    &&& a.take(k) == b.take(k)
    &&& k < a.len() ==> a[k] < b[k]
}

impl IndexWrite {
    /// The key under which the change is kept.
    pub open spec fn key_of(self) -> Key {
        match self {
            IndexWrite::Activity { address, .. } => Key::Activity(address),
            IndexWrite::NonEmptyBlock(n) => Key::NonEmptyBlock(n),
            IndexWrite::Cursor(_) => Key::Cursor,
            IndexWrite::Contract(address) => Key::Contract(address),
        }
    }

    /// The key under which the change is kept.
    pub fn key(&self) -> (key: Key)
        ensures
            key == self.key_of(),
    {
        match self {
            IndexWrite::Activity { address, .. } => Key::Activity(*address),
            IndexWrite::NonEmptyBlock(n) => Key::NonEmptyBlock(*n),
            IndexWrite::Cursor(_) => Key::Cursor,
            IndexWrite::Contract(address) => Key::Contract(*address),
        }
    }
}

/// The powers of 256 that eight bytes call for.
proof fn lemma_pow256()
    ensures
        pow256(0) == 1,
        pow256(1) == 0x100,
        pow256(2) == 0x1_0000,
        pow256(3) == 0x100_0000,
        pow256(4) == 0x1_0000_0000,
        pow256(5) == 0x100_0000_0000,
        pow256(6) == 0x1_0000_0000_0000,
        pow256(7) == 0x100_0000_0000_0000,
        pow256(8) == 0x1_0000_0000_0000_0000,
{
    reveal_with_fuel(pow256, 10);
}

/// The bytes of a number that `len` bytes hold write that number.
proof fn lemma_be_bytes_of_value(n: nat, len: nat)
    requires
        n < pow256(len),
    ensures
        be_bytes_of(n, len).len() == len,
        be_value(be_bytes_of(n, len)) == n,
    decreases len,
{
    if len > 0 {
        lemma_be_bytes_of_value(n / 256, (len - 1) as nat);
        let front = be_bytes_of(n / 256, (len - 1) as nat);
        assert(front.push((n % 256) as u8).drop_last() =~= front);
    }
}

/// The bytes of a number write that number.
pub proof fn lemma_be_bytes_value(n: u64)
    ensures
        be_bytes(n).len() == 8,
        be_value(be_bytes(n)) == n,
{
    lemma_pow256();
    lemma_be_bytes_of_value(n as nat, 8);
}

/// Of two byte strings of one length, the one that stands first writes
/// the smaller number, and two that write one number are one.
pub proof fn lemma_be_order(a: Seq<u8>, b: Seq<u8>)
    requires
        a.len() == b.len(),
    ensures
        be_value(a) == be_value(b) <==> a == b,
        be_value(a) < be_value(b) <==> key_less(a, b),
    decreases a.len(),
{
    if a.len() == 0 {
        assert(a =~= b);
        assert forall|k: int| !stands_before_at(a, b, k) by {}
    } else {
        let a0 = a.drop_last();
        let b0 = b.drop_last();
        let end = a.len() - 1;
        lemma_be_order(a0, b0);
        assert(a.take(end) =~= a0);
        assert(b.take(end) =~= b0);
        if a0 == b0 {
            if a.last() == b.last() {
                assert(a =~= a0.push(a.last()));
                assert(b =~= b0.push(b.last()));
                assert forall|k: int| !stands_before_at(a, b, k) by {}
            } else if a.last() < b.last() {
                assert(stands_before_at(a, b, end));
            } else {
                assert forall|k: int| !stands_before_at(a, b, k) by {
                    if stands_before_at(a, b, k) && k < end {
                        assert(a0[k] == b0[k]);
                    }
                }
            }
        } else {
            if key_less(a0, b0) {
                let k = choose|k: int| stands_before_at(a0, b0, k);
                assert(a.take(k) =~= a0.take(k));
                assert(b.take(k) =~= b0.take(k));
                assert(stands_before_at(a, b, k));
                assert(be_value(a0) + 1 <= be_value(b0));
            } else {
                assert(be_value(b0) + 1 <= be_value(a0));
                assert forall|k: int| !stands_before_at(a, b, k) by {
                    if stands_before_at(a, b, k) {
                        if k == end {
                            assert(a0 == b0);
                        } else {
                            assert(a0.take(k) =~= a.take(k));
                            assert(b0.take(k) =~= b.take(k));
                            assert(a0[k] == a[k] && b0[k] == b[k]);
                            assert(stands_before_at(a0, b0, k));
                        }
                    }
                }
            }
        }
    }
}

/// Keys tell their kind and what they name: two keys with the same bytes
/// are one key. So the four kinds never meet, and within a kind no two
/// addresses and no two blocks share a key.
pub proof fn lemma_keys_are_distinct(a: Key, b: Key)
    ensures
        key_bytes(a) == key_bytes(b) <==> a == b,
{
    if key_bytes(a) == key_bytes(b) {
        assert(key_bytes(a)[0] == key_bytes(b)[0]);
        match (a, b) {
            (Key::Activity(x), Key::Activity(y)) => {
                assert(x.0@ =~= key_bytes(a).skip(1));
                assert(y.0@ =~= key_bytes(b).skip(1));
                assert(x.0 =~= y.0);
            },
            (Key::Contract(x), Key::Contract(y)) => {
                assert(x.0@ =~= key_bytes(a).skip(1));
                assert(y.0@ =~= key_bytes(b).skip(1));
                assert(x.0 =~= y.0);
            },
            (Key::NonEmptyBlock(n), Key::NonEmptyBlock(m)) => {
                assert(be_bytes(n) =~= key_bytes(a).skip(1));
                assert(be_bytes(m) =~= key_bytes(b).skip(1));
                lemma_be_bytes_value(n);
                lemma_be_bytes_value(m);
            },
            _ => {},
        }
    }
}

/// The keys of the non-empty blocks stand in the order of the block
/// numbers: walking the keys in their order walks the blocks ascending.
pub proof fn lemma_block_keys_ascend(n: u64, m: u64)
    ensures
        n < m <==> key_less(key_bytes(Key::NonEmptyBlock(n)), key_bytes(Key::NonEmptyBlock(m))),
{
    let a = key_bytes(Key::NonEmptyBlock(n));
    let b = key_bytes(Key::NonEmptyBlock(m));
    lemma_be_bytes_value(n);
    lemma_be_bytes_value(m);
    lemma_be_order(be_bytes(n), be_bytes(m));
    lemma_tagged_order(TAG_BLOCK, be_bytes(n), be_bytes(m));
}

/// A tag before two byte strings leaves them in their order.
proof fn lemma_tagged_order(tag: u8, a: Seq<u8>, b: Seq<u8>)
    ensures
        key_less(seq![tag] + a, seq![tag] + b) <==> key_less(a, b),
{
    let ta = seq![tag] + a;
    let tb = seq![tag] + b;
    if key_less(a, b) {
        let k = choose|k: int| stands_before_at(a, b, k);
        assert(ta.take(k + 1) =~= seq![tag] + a.take(k));
        assert(tb.take(k + 1) =~= seq![tag] + b.take(k));
        assert(stands_before_at(ta, tb, k + 1));
    }
    if key_less(ta, tb) {
        let k = choose|k: int| stands_before_at(ta, tb, k);
        assert(k > 0);
        assert(a.take(k - 1) =~= ta.take(k).skip(1));
        assert(b.take(k - 1) =~= tb.take(k).skip(1));
        assert(stands_before_at(a, b, k - 1));
    }
}

/// The key that names `key`.
pub fn encode_key(key: &Key) -> (bytes: Vec<u8>)
    ensures
        bytes@ == key_bytes(*key),
{
    let mut bytes: Vec<u8> = Vec::new();
    match key {
        Key::Cursor => {
            bytes.push(TAG_CURSOR);
        },
        Key::Activity(address) => {
            bytes.push(TAG_ACTIVITY);
            push_bytes(&mut bytes, address.0.as_slice());
        },
        Key::NonEmptyBlock(n) => {
            bytes.push(TAG_BLOCK);
            let n0: u64 = *n;
            let n1: u64 = n0 / 256;
            let n2: u64 = n1 / 256;
            let n3: u64 = n2 / 256;
            let n4: u64 = n3 / 256;
            let n5: u64 = n4 / 256;
            let n6: u64 = n5 / 256;
            let n7: u64 = n6 / 256;
            bytes.push((n7 % 256) as u8);
            bytes.push((n6 % 256) as u8);
            bytes.push((n5 % 256) as u8);
            bytes.push((n4 % 256) as u8);
            bytes.push((n3 % 256) as u8);
            bytes.push((n2 % 256) as u8);
            bytes.push((n1 % 256) as u8);
            bytes.push((n0 % 256) as u8);
            proof {
                reveal_with_fuel(be_bytes_of, 9);
                assert(bytes@.skip(1) =~= be_bytes(n0));
            }
        },
        Key::Contract(address) => {
            bytes.push(TAG_CONTRACT);
            push_bytes(&mut bytes, address.0.as_slice());
        },
    }
    proof {
        assert(bytes@ =~= key_bytes(*key));
    }
    bytes
}

/// Adds `more` to `bytes`.
fn push_bytes(bytes: &mut Vec<u8>, more: &[u8])
    ensures
        final(bytes)@ == old(bytes)@ + more@,
{
    let ghost start = bytes@;
    let mut i: usize = 0;
    while i < more.len()
        invariant
            i <= more@.len(),
            bytes@ == start + more@.take(i as int),
        decreases more@.len() - i,
    {
        bytes.push(more[i]);
        proof {
            assert(bytes@ =~= start + more@.take(i + 1));
        }
        i += 1;
    }
    proof {
        assert(more@.take(i as int) =~= more@);
    }
}

/// What `bytes` name, if they are a key.
pub fn decode_key(bytes: &[u8]) -> (key: Option<Key>)
    ensures
        match key {
            Some(key) => key_bytes(key) == bytes@,
            None => forall|key: Key| key_bytes(key) != bytes@,
        },
{
    if bytes.len() == 0 {
        proof {
            assert forall|key: Key| key_bytes(key) != bytes@ by {
                assert(key_bytes(key).len() > 0);
            }
        }
        return None;
    }
    let tag = bytes[0];
    if tag == TAG_CURSOR && bytes.len() == 1 {
        proof {
            assert(bytes@ =~= key_bytes(Key::Cursor));
        }
        Some(Key::Cursor)
    } else if (tag == TAG_ACTIVITY || tag == TAG_CONTRACT) && bytes.len() == 21 {
        let mut address = [0u8; 20];
        let mut i: usize = 0;
        while i < 20
            invariant
                i <= 20,
                bytes@.len() == 21,
                forall|j: int| 0 <= j < i ==> address@[j] == bytes@[j + 1],
            decreases 20 - i,
        {
            address[i] = bytes[i + 1];
            i += 1;
        }
        let key = if tag == TAG_ACTIVITY {
            Key::Activity(Address(address))
        } else {
            Key::Contract(Address(address))
        };
        proof {
            assert(bytes@ =~= key_bytes(key));
        }
        Some(key)
    } else if tag == TAG_BLOCK && bytes.len() == 9 {
        let mut n: u64 = 0;
        let mut i: usize = 0;
        while i < 8
            invariant
                i <= 8,
                bytes@.len() == 9,
                n == be_value(bytes@.subrange(1, i + 1)),
                n < pow256(i as nat),
            decreases 8 - i,
        {
            proof {
                lemma_pow256();
                assert(bytes@.subrange(1, i + 2).drop_last() =~= bytes@.subrange(1, i + 1));
                assert(pow256((i + 1) as nat) == 256 * pow256(i as nat));
            }
            n = n * 256 + bytes[i + 1] as u64;
            i += 1;
        }
        proof {
            let body = bytes@.subrange(1, 9);
            lemma_be_bytes_value(n);
            lemma_be_order(be_bytes(n), body);
            assert(bytes@ =~= seq![TAG_BLOCK] + body);
        }
        Some(Key::NonEmptyBlock(n))
    } else {
        proof {
            assert forall|key: Key| key_bytes(key) != bytes@ by {
                if key_bytes(key) == bytes@ {
                    assert(key_bytes(key)[0] == tag);
                    lemma_key_len(key);
                }
            }
        }
        None
    }
}

/// How long a key is.
proof fn lemma_key_len(key: Key)
    ensures
        key_bytes(key).len() == match key {
            Key::Cursor => 1nat,
            Key::Activity(_) => 21nat,
            Key::NonEmptyBlock(_) => 9nat,
            Key::Contract(_) => 21nat,
        },
{
    match key {
        Key::NonEmptyBlock(n) => {
            lemma_be_bytes_value(n);
        },
        _ => {},
    }
}

} // verus!
