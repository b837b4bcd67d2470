//! The reader: what every query path asks of the index store, and what it
//! makes of the node's answers. It holds no state of its own; what the
//! node knows is fetched by whoever drives it.

use vstd::prelude::*;
use crate::db::{page_of, IndexStore};
use crate::types::{Address, Bytes, InternalTransaction, H256, U256};

verus! {

/// A request to the node failed.
#[derive(Clone, Copy, Debug, PartialEq, Eq)]
pub struct ChainClientError;

/// One step of a trace: how deep inside the transaction it happened, and
/// the call that it made, if it was a call.
#[derive(Clone, Debug)]
pub struct TraceEntry {
    /// 0 for the transaction itself, more for what it set off.
    pub depth: usize,
    /// The call; `None` for a step of another kind.
    pub call: Option<InternalTransaction>,
}

/// What a trace of a transaction gave.
#[derive(Debug)]
pub enum Traced {
    /// The node does not trace.
    Unsupported,
    /// The request failed.
    Failed,
    /// The steps of the trace, in order.
    Steps(Vec<TraceEntry>),
}

/// The mathematical value of an [`InternalTransaction`].
pub struct InternalTransactionView {
    pub from: Address,
    pub to: Address,
    pub value: U256,
    pub input: Seq<u8>,
}

impl View for InternalTransaction {
    type V = InternalTransactionView;

    open spec fn view(&self) -> InternalTransactionView {
        InternalTransactionView {
            from: self.from,
            to: self.to,
            value: self.value,
            input: self.input.0@,
        }
    }
}

/// The views of `calls`, in order.
pub open spec fn call_views(calls: Seq<InternalTransaction>) -> Seq<InternalTransactionView> {
    calls.map_values(|call: InternalTransaction| call@)
}

/// The internal transactions among `steps`: the calls below the
/// transaction itself, in order.
pub open spec fn internal_calls(steps: Seq<TraceEntry>) -> Seq<InternalTransactionView>
    decreases steps.len(),
{
    if steps.len() == 0 {
        Seq::empty()
    } else {
        let before = internal_calls(steps.drop_last());
        match steps.last().call {
            Some(call) => if steps.last().depth > 0 {
                before.push(call@)
            } else {
                before
            },
            None => before,
        }
    }
}

/// A view of the index store for one request.
pub struct BlockchainReader<'a> {
    pub db: &'a IndexStore,
}

impl<'a> BlockchainReader<'a> {
    /// A reader over `db`.
    pub fn new(db: &'a IndexStore) -> (reader: BlockchainReader<'a>)
        ensures
            reader.db == db,
    {
        BlockchainReader { db }
    }

    /// The transactions that `address` took part in, oldest first.
    pub fn address_activity(&self, address: &Address) -> (txs: Vec<H256>)
        requires
            self.db.wf(),
        ensures
            txs@ == self.db@.history(*address),
    {
        self.db.iter_address_activity(address)
    }

    /// The non-empty blocks from position `skip` on, ascending, `take` of
    /// them at most.
    pub fn non_empty_blocks(&self, skip: usize, take: usize) -> (blocks: Vec<u64>)
        requires
            self.db.wf(),
        ensures
            blocks@ == page_of(self.db@.non_empty, skip as int, take as int),
    {
        self.db.non_empty_blocks_page(skip, take)
    }

    /// How far the index has come: the cursor of the store.
    pub fn last_indexed_block(&self) -> (n: u64)
        ensures
            n == self.db@.cursor,
    {
        self.db.get_cursor()
    }

    /// The internal transactions of a transaction, from what its trace
    /// gave: none where the node does not trace, the calls below the
    /// transaction itself where it does, and an error only where the
    /// request failed.
    pub fn internal_transactions(traced: &Traced) -> (r: Result<
        Vec<InternalTransaction>,
        ChainClientError,
    >)
        ensures
            match *traced {
                Traced::Unsupported => r matches Ok(calls) && calls@.len() == 0,
                Traced::Failed => r is Err,
                Traced::Steps(steps) => r matches Ok(calls) && call_views(calls@)
                    == internal_calls(steps@),
            },
    {
        match traced {
            Traced::Unsupported => Ok(Vec::new()),
            Traced::Failed => Err(ChainClientError),
            Traced::Steps(steps) => {
                let mut calls: Vec<InternalTransaction> = Vec::new();
                let mut i: usize = 0;
                proof {
                    assert(steps@.take(0) =~= Seq::<TraceEntry>::empty());
                    assert(call_views(calls@) =~= Seq::<InternalTransactionView>::empty());
                }
                while i < steps.len()
                    invariant
                        i <= steps@.len(),
                        call_views(calls@) == internal_calls(steps@.take(i as int)),
                    decreases steps@.len() - i,
                {
                    proof {
                        assert(steps@.take(i + 1).drop_last() =~= steps@.take(i as int));
                        assert(steps@.take(i + 1).last() == steps@[i as int]);
                    }
                    if steps[i].depth > 0 {
                        match &steps[i].call {
                            Some(call) => {
                                let copy = copy_call(call);
                                proof {
                                    assert(call_views(calls@.push(copy)) =~= call_views(
                                        calls@,
                                    ).push(copy@));
                                }
                                calls.push(copy);
                            },
                            None => {},
                        }
                    }
                    i += 1;
                }
                proof {
                    assert(steps@.take(i as int) =~= steps@);
                }
                Ok(calls)
            },
        }
    }
}

/// A copy of `call`.
fn copy_call(call: &InternalTransaction) -> (copy: InternalTransaction)
    ensures
        copy@ == call@,
{
    let input = Bytes(call.input.0.clone());
    InternalTransaction { from: call.from, to: call.to, value: call.value, input }
}

} // verus!
