//! Plain chain values: addresses, hashes and byte strings.

use vstd::prelude::*;
use crate::contract::{hex_bytes, hex_decode, hex_well_formed};

verus! {

/// A 20-byte account address.
#[derive(Clone, Copy, Debug, PartialEq, Eq, Hash)]
pub struct Address(pub [u8; 20]);

/// A 32-byte hash: a transaction hash or a log topic.
#[derive(Clone, Copy, Debug, PartialEq, Eq, Hash)]
pub struct H256(pub [u8; 32]);

/// Whether two byte slices hold the same bytes.
pub fn bytes_eq(a: &[u8], b: &[u8]) -> (same: bool)
    ensures
        same == (a@ == b@),
{
    if a.len() != b.len() {
        return false;
    }
    let mut i: usize = 0;
    while i < a.len()
        invariant
            a.len() == b.len(),
            i <= a.len(),
            forall|j: int| 0 <= j < i ==> a@[j] == b@[j],
        decreases a.len() - i,
    {
        if a[i] != b[i] {
            return false;
        }
        i += 1;
    }
    assert(a@ =~= b@);
    true
}

impl Address {
    /// Whether `self` and `other` are the same address.
    pub fn same(&self, other: &Address) -> (r: bool)
        ensures
            r == (*self == *other),
    {
        let r = bytes_eq(self.0.as_slice(), other.0.as_slice());
        proof {
            if r {
                assert(self.0 =~= other.0);
            }
        }
        r
    }
}

impl H256 {
    /// Whether `self` and `other` are the same hash.
    pub fn same(&self, other: &H256) -> (r: bool)
        ensures
            r == (*self == *other),
    {
        let r = bytes_eq(self.0.as_slice(), other.0.as_slice());
        proof {
            if r {
                assert(self.0 =~= other.0);
            }
        }
        r
    }
}

/// A log that a transaction left.
#[derive(Clone, Debug)]
pub struct Log {
    /// The contract that emitted it.
    pub address: Address,
    pub topics: Vec<H256>,
    pub data: Vec<u8>,
}

/// A byte string: call data, log data or contract code.
#[derive(Clone, Debug, PartialEq, Eq)]
pub struct Bytes(pub Vec<u8>);

/// Two to the power of 64.
pub open spec fn limb() -> nat {
    0x1_0000_0000_0000_0000
}

/// An unsigned number of 256 bits, as four limbs of 64 bits, the least
/// significant first.
#[derive(Clone, Copy, Debug, PartialEq, Eq)]
pub struct U256(pub [u64; 4]);

impl U256 {
    /// The number.
    pub open spec fn value(self) -> nat {
        self.0[0] as nat + limb() * (self.0[1] as nat + limb() * (self.0[2] as nat + limb()
            * self.0[3] as nat))
    }

    /// The number `n`.
    pub fn from_u64(n: u64) -> (out: U256)
        ensures
            out.value() == n,
    {
        U256([n, 0, 0, 0])
    }

    /// Whether the number is zero.
    pub fn is_zero(&self) -> (zero: bool)
        ensures
            zero == (self.value() == 0),
    {
        proof {
            let high = self.0[1] as nat + limb() * (self.0[2] as nat + limb() * self.0[3] as nat);
            assert(self.value() == self.0[0] as nat + limb() * high);
            if self.0[1] != 0 || self.0[2] != 0 || self.0[3] != 0 {
                if self.0[1] == 0 {
                    let top = self.0[2] as nat + limb() * self.0[3] as nat;
                    assert(top >= 1) by (nonlinear_arith)
                        requires
                            top == self.0[2] as nat + limb() * self.0[3] as nat,
                            self.0[2] != 0 || self.0[3] != 0,
                            limb() >= 1,
                    ;
                    assert(limb() * top >= 1) by (nonlinear_arith)
                        requires
                            top >= 1,
                            limb() >= 1,
                    ;
                }
                assert(high >= 1);
                assert(limb() * high >= 1) by (nonlinear_arith)
                    requires
                        high >= 1,
                        limb() >= 1,
                ;
            }
        }
        self.0[0] == 0 && self.0[1] == 0 && self.0[2] == 0 && self.0[3] == 0
    }

    /// The lowest limb: the number itself where it is below two to the
    /// power of 64.
    pub fn low_u64(&self) -> (low: u64)
        ensures
            low == self.0[0],
            self.value() < limb() ==> low == self.value(),
    {
        proof {
            let high = self.0[1] as nat + limb() * (self.0[2] as nat + limb() * self.0[3] as nat);
            assert(self.value() == self.0[0] as nat + limb() * high);
            if high >= 1 {
                assert(limb() * high >= limb()) by (nonlinear_arith)
                    requires
                        high >= 1,
                ;
            }
        }
        self.0[0]
    }
}

/// Divides, by `U256::div_mod` of `ethereum_types`, which gives the
/// quotient and the remainder and panics on a zero divisor.
#[verifier::external_body]
pub(crate) fn u256_div_mod(a: &U256, b: &U256) -> (qr: (U256, U256))
    requires
        b.value() != 0,
    ensures
        qr.0.value() == a.value() / b.value(),
        qr.1.value() == a.value() % b.value(),
{
    let (q, r) = ethabi::ethereum_types::U256(a.0).div_mod(ethabi::ethereum_types::U256(b.0));
    (U256(q.0), U256(r.0))
}

/// Writes a number in decimal, by `Display` of `ethereum_types::U256`,
/// which prints the decimal digits, the most significant first, and `0`
/// for zero.
#[verifier::external_body]
pub(crate) fn u256_decimal(a: &U256) -> (text: String)
    ensures
        text@ == crate::text::decimal_digits(a.value()),
{
    format!("{}", ethabi::ethereum_types::U256(a.0))
}

/// The bytes that `text` names: `0x`, then the hexadecimal digits of
/// `size` bytes.
pub open spec fn prefixed_bytes(text: Seq<char>, size: nat) -> Option<Seq<u8>> {
    if text.len() >= 2 && text[0] == '0' && text[1] == 'x' && hex_well_formed(text.skip(2))
        && hex_bytes(text.skip(2)).len() == size {
        Some(hex_bytes(text.skip(2)))
    } else {
        None
    }
}

/// The bytes that `text` names after `0x`, where they are `size` bytes.
fn hex_to_bytes(text: &str, size: usize) -> (r: Option<Vec<u8>>)
    ensures
        match r {
            Some(bytes) => prefixed_bytes(text@, size as nat) == Some(bytes@),
            None => prefixed_bytes(text@, size as nat) is None,
        },
{
    let len = text.unicode_len();
    if len < 2 || text.get_char(0) != '0' || text.get_char(1) != 'x' {
        return None;
    }
    match hex_decode(text.substring_char(2, len)) {
        Ok(bytes) => if bytes.len() == size {
            Some(bytes)
        } else {
            None
        },
        Err(_) => None,
    }
}

/// The address that `text` names: `0x`, then the hexadecimal digits of
/// its 20 bytes.
pub fn hex_to_addr(text: &str) -> (r: Option<Address>)
    ensures
        match r {
            Some(address) => prefixed_bytes(text@, 20) == Some(address.0@),
            None => prefixed_bytes(text@, 20) is None,
        },
{
    match hex_to_bytes(text, 20) {
        Some(bytes) => {
            let mut out = [0u8; 20];
            let mut i: usize = 0;
            while i < 20
                invariant
                    i <= 20,
                    bytes@.len() == 20,
                    forall|j: int| 0 <= j < i ==> out@[j] == bytes@[j],
                decreases 20 - i,
            {
                out[i] = bytes[i];
                i += 1;
            }
            assert(out@ =~= bytes@);
            Some(Address(out))
        },
        None => None,
    }
}

/// The hash that `text` names: `0x`, then the hexadecimal digits of its
/// 32 bytes.
pub fn hex_to_h256(text: &str) -> (r: Option<H256>)
    ensures
        match r {
            Some(hash) => prefixed_bytes(text@, 32) == Some(hash.0@),
            None => prefixed_bytes(text@, 32) is None,
        },
{
    match hex_to_bytes(text, 32) {
        Some(bytes) => {
            let mut out = [0u8; 32];
            let mut i: usize = 0;
            while i < 32
                invariant
                    i <= 32,
                    bytes@.len() == 32,
                    forall|j: int| 0 <= j < i ==> out@[j] == bytes@[j],
                decreases 32 - i,
            {
                out[i] = bytes[i];
                i += 1;
            }
            assert(out@ =~= bytes@);
            Some(H256(out))
        },
        None => None,
    }
}

/// What a list of blocks shows of one block.
#[derive(Clone, Copy, Debug, PartialEq, Eq)]
pub struct BlockSummary {
    pub author: Address,
    /// How many transactions the block holds.
    pub tx_count: u64,
    /// When the block was made, in seconds since 1970.
    pub timestamp: u64,
    pub gas_used: u64,
    pub gas_limit: u64,
}

/// A transaction, as the node gives it.
#[derive(Clone, Debug)]
pub struct Transaction {
    pub hash: H256,
    /// The block that holds it; `None` while it is pending.
    pub block_number: Option<u64>,
    pub from: Address,
    /// The recipient; `None` for a contract creation.
    pub to: Option<Address>,
    pub value: U256,
    pub gas: u64,
    pub gas_price: U256,
    pub input: Bytes,
}

/// The receipt of a mined transaction.
#[derive(Clone, Debug)]
pub struct Receipt {
    pub cumulative_gas_used: u64,
    pub gas_used: u64,
    /// The contract that the transaction created, if it created one.
    pub contract_address: Option<Address>,
    /// 1 for success, where the chain records it.
    pub status: Option<u64>,
    pub logs: Vec<Log>,
}

/// A call or transfer that a contract made while a transaction ran.
#[derive(Clone, Debug)]
pub struct InternalTransaction {
    pub from: Address,
    pub to: Address,
    pub value: U256,
    pub input: Bytes,
}

/// A block with its transactions.
#[derive(Clone, Debug)]
pub struct Block {
    pub author: Address,
    pub timestamp: u64,
    pub gas_used: u64,
    pub gas_limit: u64,
    pub transactions: Vec<Transaction>,
}

} // verus!
