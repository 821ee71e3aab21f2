//! Failure taxonomy of the ledger operations.
//!
//! Validation faults are detected before any mutation; matching faults abort
//! the whole enclosing operation, whose caller then keeps its pre-state.
//! Every variant carries enough context for the operator to re-run
//! correctly.
use vstd::prelude::*;

verus! {

use crate::model::Tracker;

/// Why a ledger operation failed.
#[derive(Debug, PartialEq)]
pub enum LedgerError {
    /// A matching pass ran out of acquisition lots in scope.
    NoAcquisitionLotsAvailable { disposition_id: u64, tracker: Tracker, remaining_satoshis: i64 },
    /// The earliest available acquisition lot postdates the disposition.
    DispositionPredatesAcquisition { acquisition_id: u64, disposition_id: u64 },
    /// An import record is malformed: zero quantity or out-of-range values.
    InvalidRecord { index: usize },
    /// An import record predates the record before it; the ingestion
    /// collaborator hands records over sorted by timestamp.
    OutOfOrderRecord { index: usize },
    /// A transfer request asks for a non-positive quantity.
    NonPositiveTransferAmount { index: usize },
    /// A wallet holds less tax-undisposed quantity than a transfer asks for.
    InsufficientBalance { wallet: String, available_satoshis: i128, requested_satoshis: i64 },
    /// Allocation found a lot whose GAAP and tax trackers have diverged.
    DivergentTrackers {
        acquisition_id: u64,
        acquisition_date: i64,
        undisposed_satoshis: i64,
        tax_undisposed_satoshis: i64,
    },
    /// The bucket total strays from the total undisposed quantity by more
    /// than one unit per bucket.
    BucketSumMismatch {
        bucket_total_satoshis: i128,
        total_undisposed_satoshis: i128,
        tolerance: usize,
    },
}

} // verus!
