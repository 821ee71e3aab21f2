//! The ledger's data model: acquisition lots, disposition lots, match
//! records, and the invariants that hold of every well-formed ledger.
//!
//! Quantities are integers in the smallest asset unit (satoshis), prices are
//! integer cents per whole coin, and timestamps are seconds since the Unix
//! epoch.  Each acquisition lot carries two independent undisposed trackers:
//! `undisposed_satoshis` for the GAAP view and `tax_undisposed_satoshis` for
//! the tax view; the two diverge only because the two matching passes consume
//! lots independently.
use vstd::prelude::*;

verus! {

use crate::sums::sum_map;

/// Satoshis in one whole bitcoin: the unit scale of every price computation.
pub const SATOSHIS_PER_BTC: i64 = 100_000_000;

/// Total supply cap, in satoshis: no lot can exceed it.
pub const MAX_SATOSHIS: i64 = 2_100_000_000_000_000;

/// Price cap, in cents per whole coin, chosen so that any basis computation
/// fits in 64 bits.
pub const MAX_PRICE_CENTS: i64 = 100_000_000_000;

/// Largest basis value a match can carry:
/// `MAX_SATOSHIS / SATOSHIS_PER_BTC * MAX_PRICE_CENTS`.
pub const MAX_BASIS_CENTS: i64 = 2_100_000_000_000_000_000;

/// Timestamp bound (9999-12-31T23:59:59Z), so date arithmetic cannot
/// overflow.
pub const MAX_TIMESTAMP: i64 = 253_402_300_799;

/// Elapsed seconds from which a holding counts as long-term: 365 days.
/// The boundary policy is explicit: a holding disposed exactly 365 days
/// after acquisition is long-term; at 364 days it is short-term.
pub const LONG_TERM_SECONDS: i64 = 31_536_000;

/// Which of the two independent bookkeeping views a match belongs to.
#[derive(Clone, Copy, PartialEq, Eq, Structural, Debug)]
pub enum Tracker {
    Tax,
    Gaap,
}

/// Holding term of a match, classified from the elapsed time between
/// acquisition and disposition.
#[derive(Clone, Copy, PartialEq, Eq, Structural, Debug)]
pub enum Term {
    Short,
    Long,
}

/// Whether FIFO matching considers all lots or only the disposing wallet's.
#[derive(Clone, Copy, PartialEq, Eq, Structural, Debug)]
pub enum Scope {
    Wallet,
    Universal,
}

/// An acquisition lot: a quantity acquired at a point in time at a known
/// price, tracked until fully disposed under each tracker.
#[derive(Debug, PartialEq)]
pub struct Acquisition {
    pub id: u64,
    pub acquisition_date: i64,
    pub satoshis: i64,
    pub undisposed_satoshis: i64,
    pub tax_undisposed_satoshis: i64,
    pub usd_cents_btc_basis: i64,
    pub usd_cents_btc_fair_value: i64,
    pub wallet: String,
}

/// Mathematical value of an acquisition lot.
#[verifier::ext_equal]
pub struct AcquisitionView {
    pub id: int,
    pub acquisition_date: int,
    pub satoshis: int,
    pub undisposed_satoshis: int,
    pub tax_undisposed_satoshis: int,
    pub usd_cents_btc_basis: int,
    pub usd_cents_btc_fair_value: int,
    pub wallet: Seq<char>,
}

/// A disposition lot: a negative quantity disposed at a point in time; the
/// two undisposed fields hold the still-unmatched magnitude, moving toward
/// zero as matches are recorded.
#[derive(Debug, PartialEq)]
pub struct Disposition {
    pub id: u64,
    pub disposition_date: i64,
    pub satoshis: i64,
    pub undisposed_satoshis: i64,
    pub tax_undisposed_satoshis: i64,
    pub usd_cents_btc_basis: i64,
    pub wallet: String,
}

/// Mathematical value of a disposition lot.
#[verifier::ext_equal]
pub struct DispositionView {
    pub id: int,
    pub disposition_date: int,
    pub satoshis: int,
    pub undisposed_satoshis: int,
    pub tax_undisposed_satoshis: int,
    pub usd_cents_btc_basis: int,
    pub wallet: Seq<char>,
}

/// A match of a quantity of one acquisition against one disposition under
/// one tracker.  Match records are immutable once written: they are the
/// ledger's audit trail.
#[derive(Debug, PartialEq)]
pub struct AcquisitionDisposition {
    pub acquisition_id: u64,
    pub disposition_id: u64,
    pub satoshis: i64,
    pub basis: i64,
    pub rgl: i64,
    pub term: Term,
    pub match_type: Tracker,
}

/// Mathematical value of a match record.
#[verifier::ext_equal]
pub struct MatchView {
    pub acquisition_id: int,
    pub disposition_id: int,
    pub satoshis: int,
    pub basis: int,
    pub rgl: int,
    pub term: Term,
    pub match_type: Tracker,
}

impl View for Acquisition {
    type V = AcquisitionView;

    open spec fn view(&self) -> AcquisitionView {
        AcquisitionView {
            id: self.id as int,
            acquisition_date: self.acquisition_date as int,
            satoshis: self.satoshis as int,
            undisposed_satoshis: self.undisposed_satoshis as int,
            tax_undisposed_satoshis: self.tax_undisposed_satoshis as int,
            usd_cents_btc_basis: self.usd_cents_btc_basis as int,
            usd_cents_btc_fair_value: self.usd_cents_btc_fair_value as int,
            wallet: self.wallet@,
        }
    }
}

impl View for Disposition {
    type V = DispositionView;

    open spec fn view(&self) -> DispositionView {
        DispositionView {
            id: self.id as int,
            disposition_date: self.disposition_date as int,
            satoshis: self.satoshis as int,
            undisposed_satoshis: self.undisposed_satoshis as int,
            tax_undisposed_satoshis: self.tax_undisposed_satoshis as int,
            usd_cents_btc_basis: self.usd_cents_btc_basis as int,
            wallet: self.wallet@,
        }
    }
}

impl View for AcquisitionDisposition {
    type V = MatchView;

    open spec fn view(&self) -> MatchView {
        MatchView {
            acquisition_id: self.acquisition_id as int,
            disposition_id: self.disposition_id as int,
            satoshis: self.satoshis as int,
            basis: self.basis as int,
            rgl: self.rgl as int,
            term: self.term,
            match_type: self.match_type,
        }
    }
}

impl Clone for Acquisition {
    fn clone(&self) -> (r: Self)
        ensures
            r == *self,
    {
        Acquisition {
            id: self.id,
            acquisition_date: self.acquisition_date,
            satoshis: self.satoshis,
            undisposed_satoshis: self.undisposed_satoshis,
            tax_undisposed_satoshis: self.tax_undisposed_satoshis,
            usd_cents_btc_basis: self.usd_cents_btc_basis,
            usd_cents_btc_fair_value: self.usd_cents_btc_fair_value,
            wallet: self.wallet.clone(),
        }
    }
}

impl Clone for Disposition {
    fn clone(&self) -> (r: Self)
        ensures
            r == *self,
    {
        Disposition {
            id: self.id,
            disposition_date: self.disposition_date,
            satoshis: self.satoshis,
            undisposed_satoshis: self.undisposed_satoshis,
            tax_undisposed_satoshis: self.tax_undisposed_satoshis,
            usd_cents_btc_basis: self.usd_cents_btc_basis,
            wallet: self.wallet.clone(),
        }
    }
}

impl Clone for AcquisitionDisposition {
    fn clone(&self) -> (r: Self)
        ensures
            r == *self,
    {
        AcquisitionDisposition {
            acquisition_id: self.acquisition_id,
            disposition_id: self.disposition_id,
            satoshis: self.satoshis,
            basis: self.basis,
            rgl: self.rgl,
            term: self.term,
            match_type: self.match_type,
        }
    }
}

/// The tracker-specific undisposed quantity of an acquisition lot.
pub open spec fn acq_undisposed(a: AcquisitionView, t: Tracker) -> int {
    match t {
        Tracker::Tax => a.tax_undisposed_satoshis,
        Tracker::Gaap => a.undisposed_satoshis,
    }
}

/// The tracker-specific undisposed quantity of a disposition lot.
pub open spec fn disp_undisposed(d: DispositionView, t: Tracker) -> int {
    match t {
        Tracker::Tax => d.tax_undisposed_satoshis,
        Tracker::Gaap => d.undisposed_satoshis,
    }
}

/// The acquisition-side price a tracker matches against: historical cost for
/// tax, carrying (fair) value for GAAP.
pub open spec fn tracker_price(a: AcquisitionView, t: Tracker) -> int {
    match t {
        Tracker::Tax => a.usd_cents_btc_basis,
        Tracker::Gaap => a.usd_cents_btc_fair_value,
    }
}

/// Holding-term classification: long-term from 365 elapsed days on.
pub open spec fn term_of(acquisition_date: int, disposition_date: int) -> Term {
    if disposition_date - acquisition_date >= LONG_TERM_SECONDS {
        Term::Long
    } else {
        Term::Short
    }
}

/// FIFO ordering key: acquisition timestamp, identity as the tie-break.
/// Identities are handed out in insertion order, so a lot split off from a
/// parent sorts directly after it at the same timestamp.
pub open spec fn acq_key_lt(a: AcquisitionView, b: AcquisitionView) -> bool {
    a.acquisition_date < b.acquisition_date || (a.acquisition_date == b.acquisition_date && a.id
        < b.id)
}

/// Whether a lot is visible to a matching pass restricted to `wallet`.
pub open spec fn in_scope(a: AcquisitionView, scope: Scope, wallet: Seq<char>) -> bool {
    scope is Universal || a.wallet == wallet
}

/// A lot a matching pass may consume: in scope with tracker quantity left.
pub open spec fn eligible(a: AcquisitionView, t: Tracker, scope: Scope, wallet: Seq<char>) -> bool {
    acq_undisposed(a, t) > 0 && in_scope(a, scope, wallet)
}

/// Tracker bound on an acquisition lot: both undisposed quantities lie
/// between zero and the lot quantity, and every field is within range.
pub open spec fn acq_wf(a: AcquisitionView) -> bool {
    &&& 0 <= a.satoshis <= MAX_SATOSHIS
    &&& 0 <= a.undisposed_satoshis <= a.satoshis
    &&& 0 <= a.tax_undisposed_satoshis <= a.satoshis
    &&& 0 <= a.usd_cents_btc_basis <= MAX_PRICE_CENTS
    &&& 0 <= a.usd_cents_btc_fair_value <= MAX_PRICE_CENTS
    &&& -MAX_TIMESTAMP <= a.acquisition_date <= MAX_TIMESTAMP
}

/// Tracker bound on a disposition lot: both undisposed magnitudes shrink
/// monotonically toward zero and never overshoot the disposed quantity.
pub open spec fn disp_wf(d: DispositionView) -> bool {
    &&& -MAX_SATOSHIS <= d.satoshis < 0
    &&& d.satoshis <= d.undisposed_satoshis <= 0
    &&& d.satoshis <= d.tax_undisposed_satoshis <= 0
    &&& 0 <= d.usd_cents_btc_basis <= MAX_PRICE_CENTS
    &&& -MAX_TIMESTAMP <= d.disposition_date <= MAX_TIMESTAMP
}

/// Range invariant of a match record.
pub open spec fn match_wf(m: MatchView) -> bool {
    &&& 0 < m.satoshis <= MAX_SATOSHIS
    &&& 0 <= m.basis <= MAX_BASIS_CENTS
    &&& -MAX_BASIS_CENTS <= m.rgl <= MAX_BASIS_CENTS
}

/// Total quantity matched against acquisition `id` under tracker `t`.
pub open spec fn matched_for_acq(ms: Seq<MatchView>, id: int, t: Tracker) -> int {
    sum_map(
        ms,
        |m: MatchView|
            if m.acquisition_id == id && m.match_type == t {
                m.satoshis
            } else {
                0
            },
    )
}

/// Total quantity matched against disposition `id` under tracker `t`.
pub open spec fn matched_for_disp(ms: Seq<MatchView>, id: int, t: Tracker) -> int {
    sum_map(
        ms,
        |m: MatchView|
            if m.disposition_id == id && m.match_type == t {
                m.satoshis
            } else {
                0
            },
    )
}

/// Total tax-undisposed quantity sitting in `wallet`.
pub open spec fn wallet_tax_undisposed(s: Seq<AcquisitionView>, wallet: Seq<char>) -> int {
    sum_map(
        s,
        |a: AcquisitionView|
            if a.wallet == wallet {
                a.tax_undisposed_satoshis
            } else {
                0
            },
    )
}

/// Total GAAP-undisposed quantity sitting in `wallet`.
pub open spec fn wallet_gaap_undisposed(s: Seq<AcquisitionView>, wallet: Seq<char>) -> int {
    sum_map(
        s,
        |a: AcquisitionView|
            if a.wallet == wallet {
                a.undisposed_satoshis
            } else {
                0
            },
    )
}

/// Total lot quantity over a sequence of acquisition lots.
pub open spec fn total_satoshis(s: Seq<AcquisitionView>) -> int {
    sum_map(s, |a: AcquisitionView| a.satoshis)
}

/// Total GAAP-undisposed quantity over a sequence of acquisition lots.
pub open spec fn total_gaap_undisposed(s: Seq<AcquisitionView>) -> int {
    sum_map(s, |a: AcquisitionView| a.undisposed_satoshis)
}

/// Total tax-undisposed quantity over a sequence of acquisition lots.
pub open spec fn total_tax_undisposed(s: Seq<AcquisitionView>) -> int {
    sum_map(s, |a: AcquisitionView| a.tax_undisposed_satoshis)
}

/// The lot `a` with its tracker-`t` undisposed quantity replaced by `v`.
pub open spec fn acq_with_undisposed(a: AcquisitionView, t: Tracker, v: int) -> AcquisitionView {
    match t {
        Tracker::Tax => AcquisitionView { tax_undisposed_satoshis: v, ..a },
        Tracker::Gaap => AcquisitionView { undisposed_satoshis: v, ..a },
    }
}

/// The disposition `d` with its tracker-`t` undisposed quantity replaced.
pub open spec fn disp_with_undisposed(d: DispositionView, t: Tracker, v: int) -> DispositionView {
    match t {
        Tracker::Tax => DispositionView { tax_undisposed_satoshis: v, ..d },
        Tracker::Gaap => DispositionView { undisposed_satoshis: v, ..d },
    }
}

/// The lot `a` with another wallet tag.
pub open spec fn acq_with_wallet(a: AcquisitionView, wallet: Seq<char>) -> AcquisitionView {
    AcquisitionView { wallet: wallet, ..a }
}

/// The disposition `d` with another wallet tag.
pub open spec fn disp_with_wallet(d: DispositionView, wallet: Seq<char>) -> DispositionView {
    DispositionView { wallet: wallet, ..d }
}

/// What remains of a lot after `ts` quantity, `tg` GAAP-undisposed and `tt`
/// tax-undisposed units are split off: identity, timestamp, prices and
/// wallet are kept.
pub open spec fn split_parent(a: AcquisitionView, ts: int, tg: int, tt: int) -> AcquisitionView {
    AcquisitionView {
        satoshis: a.satoshis - ts,
        undisposed_satoshis: a.undisposed_satoshis - tg,
        tax_undisposed_satoshis: a.tax_undisposed_satoshis - tt,
        ..a
    }
}

/// The lot split off from `a`: a fresh identity, the three transferred
/// amounts, the same timestamp and prices, and the destination wallet.
pub open spec fn split_child(
    a: AcquisitionView,
    id: int,
    ts: int,
    tg: int,
    tt: int,
    wallet: Seq<char>,
) -> AcquisitionView {
    AcquisitionView {
        id: id,
        satoshis: ts,
        undisposed_satoshis: tg,
        tax_undisposed_satoshis: tt,
        wallet: wallet,
        ..a
    }
}

/// Mathematical value of the whole ledger store.
#[verifier::ext_equal]
pub struct LedgerView {
    pub acquisitions: Seq<AcquisitionView>,
    pub dispositions: Seq<DispositionView>,
    pub acquisition_dispositions: Seq<MatchView>,
    pub next_acquisition_id: int,
    pub next_disposition_id: int,
}

impl LedgerView {
    /// Every lot and match is well formed, identities are unique and below
    /// the next free identity, and matches reference only identities that
    /// have been handed out.
    pub open spec fn wf(self) -> bool {
        &&& forall|i: int|
            0 <= i < self.acquisitions.len() ==> acq_wf(#[trigger] self.acquisitions[i]) && 0
                <= self.acquisitions[i].id < self.next_acquisition_id
        &&& forall|i: int, j: int|
            #![trigger self.acquisitions[i], self.acquisitions[j]]
            0 <= i < j < self.acquisitions.len() ==> self.acquisitions[i].id
                != self.acquisitions[j].id
        &&& forall|i: int|
            0 <= i < self.dispositions.len() ==> disp_wf(#[trigger] self.dispositions[i]) && 0
                <= self.dispositions[i].id < self.next_disposition_id
        &&& forall|i: int, j: int|
            #![trigger self.dispositions[i], self.dispositions[j]]
            0 <= i < j < self.dispositions.len() ==> self.dispositions[i].id
                != self.dispositions[j].id
        &&& forall|i: int|
            0 <= i < self.acquisition_dispositions.len() ==> match_wf(
                #[trigger] self.acquisition_dispositions[i],
            ) && 0 <= self.acquisition_dispositions[i].acquisition_id < self.next_acquisition_id
                && 0 <= self.acquisition_dispositions[i].disposition_id < self.next_disposition_id
    }

    /// Matching conservation on the acquisition side for tracker `t`: what a
    /// lot has consumed equals the total of its match records.
    pub open spec fn acq_matches_consistent(self, t: Tracker) -> bool {
        forall|i: int|
            0 <= i < self.acquisitions.len() ==> (#[trigger] self.acquisitions[i]).satoshis
                - acq_undisposed(self.acquisitions[i], t) == matched_for_acq(
                self.acquisition_dispositions,
                self.acquisitions[i].id,
                t,
            )
    }

    /// Matching conservation on the disposition side for tracker `t`.
    pub open spec fn disp_matches_consistent(self, t: Tracker) -> bool {
        forall|i: int|
            0 <= i < self.dispositions.len() ==> disp_undisposed(self.dispositions[i], t)
                - (#[trigger] self.dispositions[i]).satoshis == matched_for_disp(
                self.acquisition_dispositions,
                self.dispositions[i].id,
                t,
            )
    }

    /// Matching conservation summed over the whole ledger: total disposed
    /// quantity equals total matched quantity, per tracker.  Unlike the
    /// per-lot statement, this also survives the proportional splitting of a
    /// lot whose trackers have diverged.
    pub open spec fn globally_consistent(self, t: Tracker) -> bool {
        total_satoshis(self.acquisitions) - sum_map(
            self.acquisitions,
            |a: AcquisitionView| acq_undisposed(a, t),
        ) == sum_map(self.acquisition_dispositions, |m: MatchView| if m.match_type == t {
            m.satoshis
        } else {
            0
        })
    }
}

} // verus!
