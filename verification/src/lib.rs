//! A dual-tracker FIFO lot ledger for bitcoin holdings.
//!
//! Holdings are tracked as discrete acquisition lots and disposition
//! events; dispositions are matched against lots in First-In-First-Out
//! order to compute realized gain/loss, independently under two accounting
//! regimes.  The tax view matches against historical cost, the GAAP view
//! against carrying (fair) value, and each view may use its own lot scope,
//! so the two regimes can diverge after a mark-to-market event.
//!
//! The core of the crate is the dual-tracker matching, splitting and
//! transfer engine: every lot carries its original quantity and two
//! independent undisposed trackers, and every operation preserves the
//! tracker bounds, conserves quantities exactly across lot splits, and
//! either completes or leaves the ledger exactly as it was.
pub mod allocate;
pub mod config;
pub mod errors;
pub mod matching;
pub mod model;
pub mod report;
pub mod rounding;
pub mod store;
pub mod sums;
pub mod transfer;
