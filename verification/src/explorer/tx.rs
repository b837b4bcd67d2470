//! The page of a transaction, with the calls that it made.

use vstd::prelude::*;
use crate::db::IndexStore;
use crate::render::{
    lay_out_tx_page, tx_page_laid_out, Ether, HtmlRender, RenderError, RenderKind, TextWithLink,
    TextWithLinkView, TxPage, TxPageView,
};
use crate::types::{InternalTransaction, Receipt, Transaction};

verus! {

/// A call that a contract made while the transaction ran.
#[derive(Debug)]
pub struct ItxShown {
    pub from: TextWithLink,
    pub to: TextWithLink,
    /// The value that was moved, in ether.
    pub value: String,
}

/// The mathematical value of an [`ItxShown`].
pub struct ItxShownView {
    pub from: TextWithLinkView,
    pub to: TextWithLinkView,
    pub value: Seq<char>,
}

impl View for ItxShown {
    type V = ItxShownView;

    open spec fn view(&self) -> ItxShownView {
        ItxShownView { from: self.from@, to: self.to@, value: self.value@ }
    }
}

/// What the page shows of the internal transaction `itx`.
pub open spec fn itx_shown(itx: InternalTransaction) -> ItxShownView {
    ItxShownView {
        from: itx.from.shown(),
        to: itx.to.shown(),
        value: Ether(itx.value).shown().text,
    }
}

/// The page of a transaction with what it did inside contracts.
#[derive(Debug)]
pub struct TxView {
    pub page: TxPage,
    /// Whether the transaction creates a contract.
    pub tonewcontract: bool,
    pub itxs: Vec<ItxShown>,
}

/// The status of a receipt in words: `Success` for 1, `Failed` for any
/// other number; empty where the receipt tells none, or there is no
/// receipt.
pub open spec fn status_word(receipt: Option<Receipt>) -> Seq<char> {
    match receipt {
        Some(Receipt { status: Some(status), .. }) => if status == 1 {
            "Success"@
        } else {
            "Failed"@
        },
        _ => Seq::empty(),
    }
}

/// Whether `r` is the page of what the node gave for a transaction, where
/// `page` is the page of the transaction itself, or why there is none:
/// that page or that error, and each internal transaction in order.
pub open spec fn tx_view_is(
    r: Result<TxView, RenderError>,
    page: Result<TxPageView, RenderKind>,
    tx: Transaction,
    itxs: Seq<InternalTransaction>,
) -> bool {
    match r {
        Ok(view) => {
            &&& page == Ok::<TxPageView, RenderKind>(view.page@)
            &&& view.tonewcontract == tx.to is None
            &&& view.itxs@.len() == itxs.len()
            &&& forall|i: int| 0 <= i < itxs.len() ==> (#[trigger] view.itxs@[i])@ == itx_shown(itxs[i])
        },
        Err(e) => page == Err::<TxPageView, RenderKind>(e.kind_of()),
    }
}

/// Puts together the page of a transaction from what the node gave for
/// it, its receipt and its internal transactions. Logs and input are
/// shown in brief: of a log that was decoded, what was decoded alone.
pub fn render(
    db: &IndexStore,
    tx: Option<&Transaction>,
    receipt: Option<&Receipt>,
    itxs: &Vec<InternalTransaction>,
) -> (r: Result<TxView, RenderError>)
    requires
        db.wf(),
    ensures
        tx is None ==> r matches Err(RenderError::NotFound),
        tx is Some ==> tx_view_is(
            r,
            tx_page_laid_out(
                db@,
                *tx->0,
                match receipt {
                    Some(receipt) => Some(*receipt),
                    None => None,
                },
                status_word(
                    match receipt {
                        Some(receipt) => Some(*receipt),
                        None => None,
                    },
                ),
                true,
            ),
            *tx->0,
            itxs@,
        ),
{
    let tx = match tx {
        Some(tx) => tx,
        None => {
            return Err(RenderError::NotFound);
        },
    };
    let status = match receipt {
        Some(receipt) => match receipt.status {
            Some(status) => if status == 1 {
                "Success".to_owned()
            } else {
                "Failed".to_owned()
            },
            None => String::new(),
        },
        None => String::new(),
    };
    let page = match lay_out_tx_page(db, tx, receipt, status, true) {
        Ok(page) => page,
        Err(e) => {
            return Err(e);
        },
    };
    let mut shown: Vec<ItxShown> = Vec::new();
    let mut i: usize = 0;
    while i < itxs.len()
        invariant
            i <= itxs@.len(),
            shown@.len() == i,
            forall|j: int| 0 <= j < i ==> (#[trigger] shown@[j])@ == itx_shown(itxs@[j]),
        decreases itxs@.len() - i,
    {
        let itx = &itxs[i];
        shown.push(
            ItxShown { from: itx.from.html(), to: itx.to.html(), value: Ether(itx.value).html().text },
        );
        i += 1;
    }
    Ok(TxView { page, tonewcontract: tx.to.is_none(), itxs: shown })
}

} // verus!
