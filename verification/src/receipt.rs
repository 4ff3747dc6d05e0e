//! The outcome of one shadow transaction.

use vstd::prelude::*;
use crate::pledge::TxId;
use crate::shadow::{ShadowTxType, ShadowTxTypeView};

verus! {

/// How a shadow transaction ended. Only `Success` changes the ledger; every
/// other outcome is a soft failure that the chain records.
#[derive(Clone, Copy, Debug, PartialEq, Eq, Structural, Hash)]
pub enum ShadowResult {
    Success,
    /// The balance does not cover the amount.
    OutOfFunds,
    /// A credit would not fit in 256 bits.
    OverflowPayment,
    /// The address already has a stake.
    AlreadyStaked,
    /// The address already has a commitment for the partition.
    AlreadyPledged,
    /// The address has no commitments.
    NoPledges,
    /// The address has no active commitment for the partition.
    NoMatchingPledge,
}

/// The record of one processed shadow transaction.
#[derive(Debug, PartialEq, Eq)]
pub struct ShadowReceipt {
    pub tx_id: TxId,
    pub result: ShadowResult,
    pub tx_type: ShadowTxType,
}

/// What a `ShadowReceipt` holds, as plain values.
pub struct ShadowReceiptView {
    pub tx_id: Seq<u8>,
    pub result: ShadowResult,
    pub tx_type: ShadowTxTypeView,
}

impl View for ShadowReceipt {
    type V = ShadowReceiptView;

    open spec fn view(&self) -> ShadowReceiptView {
        ShadowReceiptView { tx_id: self.tx_id@, result: self.result, tx_type: self.tx_type@ }
    }
}

impl Clone for ShadowReceipt {
    fn clone(&self) -> (r: Self)
        ensures
            r@ == self@,
    {
        ShadowReceipt { tx_id: self.tx_id, result: self.result, tx_type: self.tx_type.clone() }
    }
}

/// The views of a sequence of receipts.
pub open spec fn receipt_views(s: Seq<ShadowReceipt>) -> Seq<ShadowReceiptView> {
    Seq::new(s.len(), |i: int| s[i]@)
}

} // verus!
