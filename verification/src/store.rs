//! The ledger store: the acquisition-lot, disposition-lot and match tables,
//! with the row-level operations every other component builds on.
//!
//! The store is an in-memory value; the surrounding application owns
//! persistence.  Operations that must be atomic work on a clone of the store
//! and commit it only on success, so a failure leaves the ledger exactly as
//! it was.
use vstd::prelude::*;

verus! {

use crate::model::{
    acq_key_lt,
    disp_undisposed,
    acq_undisposed,
    acq_wf,
    disp_wf,
    eligible,
    Acquisition,
    AcquisitionDisposition,
    AcquisitionView,
    Disposition,
    DispositionView,
    LedgerView,
    MatchView,
    Scope,
    Tracker,
    MAX_SATOSHIS,
};
use crate::sums::{lemma_sum_map_bound, lemma_sum_map_push, lemma_sum_map_take_all, lemma_sum_map_take_succ, sum_map};
use crate::rounding::{rounded_div, lemma_rounded_div_monotonic, lemma_rounded_div_exact, lemma_rounded_div_diff};

/// A new acquisition lot, before an identity is assigned.
#[derive(Debug)]
pub struct NewAcquisition {
    pub acquisition_date: i64,
    pub satoshis: i64,
    pub undisposed_satoshis: i64,
    pub tax_undisposed_satoshis: i64,
    pub usd_cents_btc_basis: i64,
    pub usd_cents_btc_fair_value: i64,
    pub wallet: String,
}

/// A new disposition lot, before an identity is assigned.
#[derive(Debug)]
pub struct NewDisposition {
    pub disposition_date: i64,
    pub satoshis: i64,
    pub undisposed_satoshis: i64,
    pub tax_undisposed_satoshis: i64,
    pub usd_cents_btc_basis: i64,
    pub wallet: String,
}

/// The whole ledger store.
#[derive(Debug)]
pub struct Ledger {
    pub acquisitions: Vec<Acquisition>,
    pub dispositions: Vec<Disposition>,
    pub acquisition_dispositions: Vec<AcquisitionDisposition>,
    pub next_acquisition_id: u64,
    pub next_disposition_id: u64,
}

impl View for Ledger {
    type V = LedgerView;

    open spec fn view(&self) -> LedgerView {
        LedgerView {
            acquisitions: self.acquisitions@.map_values(|a: Acquisition| a@),
            dispositions: self.dispositions@.map_values(|d: Disposition| d@),
            acquisition_dispositions: self.acquisition_dispositions@.map_values(
                |m: AcquisitionDisposition| m@,
            ),
            next_acquisition_id: self.next_acquisition_id as int,
            next_disposition_id: self.next_disposition_id as int,
        }
    }
}

impl Clone for Ledger {
    fn clone(&self) -> (r: Self)
        ensures
            r@ == self@,
    {
        let r = Ledger {
            acquisitions: self.acquisitions.clone(),
            dispositions: self.dispositions.clone(),
            acquisition_dispositions: self.acquisition_dispositions.clone(),
            next_acquisition_id: self.next_acquisition_id,
            next_disposition_id: self.next_disposition_id,
        };
        proof {
            assert forall|i: int| 0 <= i < self.acquisitions@.len() implies r.acquisitions@[i]
                == self.acquisitions@[i] by {}
            assert(r.acquisitions@ =~= self.acquisitions@);
            assert forall|i: int| 0 <= i < self.dispositions@.len() implies r.dispositions@[i]
                == self.dispositions@[i] by {}
            assert(r.dispositions@ =~= self.dispositions@);
            assert forall|i: int|
                0 <= i < self.acquisition_dispositions@.len() implies r.acquisition_dispositions@[i]
                == self.acquisition_dispositions@[i] by {}
            assert(r.acquisition_dispositions@ =~= self.acquisition_dispositions@);
            assert(r@ =~= self@);
        }
        r
    }
}

impl Ledger {
    /// The standing invariant of the store: well-formed rows, unique
    /// identities, disposition-side matching conservation and global
    /// matching conservation, for both trackers.
    pub open spec fn inv(self) -> bool {
        &&& self@.wf()
        &&& self@.disp_matches_consistent(Tracker::Tax)
        &&& self@.disp_matches_consistent(Tracker::Gaap)
        &&& self@.globally_consistent(Tracker::Tax)
        &&& self@.globally_consistent(Tracker::Gaap)
    }

    /// An empty ledger.
    pub fn new() -> (r: Ledger)
        ensures
            r.inv(),
            r@.acquisitions.len() == 0,
            r@.dispositions.len() == 0,
            r@.acquisition_dispositions.len() == 0,
            r@.next_acquisition_id == 0,
            r@.next_disposition_id == 0,
            r@.acq_matches_consistent(Tracker::Tax),
            r@.acq_matches_consistent(Tracker::Gaap),
    {
        let r = Ledger {
            acquisitions: Vec::new(),
            dispositions: Vec::new(),
            acquisition_dispositions: Vec::new(),
            next_acquisition_id: 0,
            next_disposition_id: 0,
        };
        proof {
            assert(r@.acquisitions =~= Seq::<AcquisitionView>::empty());
            assert(r@.dispositions =~= Seq::<DispositionView>::empty());
            assert(r@.acquisition_dispositions =~= Seq::<MatchView>::empty());
        }
        r
    }

    /// Insert a fresh acquisition lot, fully undisposed under both trackers,
    /// and hand back its identity.
    ///
    /// Relied-on shape of a fresh lot: both trackers start at the full
    /// quantity, so matching conservation is preserved trivially.
    pub fn insert_acquisition(&mut self, n: NewAcquisition) -> (id: u64)
        requires
            old(self).inv(),
            old(self).next_acquisition_id < u64::MAX,
            acq_wf(
                AcquisitionView {
                    id: 0,
                    acquisition_date: n.acquisition_date as int,
                    satoshis: n.satoshis as int,
                    undisposed_satoshis: n.undisposed_satoshis as int,
                    tax_undisposed_satoshis: n.tax_undisposed_satoshis as int,
                    usd_cents_btc_basis: n.usd_cents_btc_basis as int,
                    usd_cents_btc_fair_value: n.usd_cents_btc_fair_value as int,
                    wallet: n.wallet@,
                },
            ),
            n.undisposed_satoshis == n.satoshis,
            n.tax_undisposed_satoshis == n.satoshis,
        ensures
            final(self).inv(),
            id == old(self).next_acquisition_id,
            final(self)@.next_acquisition_id == old(self)@.next_acquisition_id + 1,
            final(self)@.next_disposition_id == old(self)@.next_disposition_id,
            final(self)@.dispositions == old(self)@.dispositions,
            final(self)@.acquisition_dispositions == old(self)@.acquisition_dispositions,
            final(self)@.acquisitions == old(self)@.acquisitions.push(
                AcquisitionView {
                    id: id as int,
                    acquisition_date: n.acquisition_date as int,
                    satoshis: n.satoshis as int,
                    undisposed_satoshis: n.undisposed_satoshis as int,
                    tax_undisposed_satoshis: n.tax_undisposed_satoshis as int,
                    usd_cents_btc_basis: n.usd_cents_btc_basis as int,
                    usd_cents_btc_fair_value: n.usd_cents_btc_fair_value as int,
                    wallet: n.wallet@,
                },
            ),
            old(self)@.acq_matches_consistent(Tracker::Tax) ==> final(self)@.acq_matches_consistent(
                Tracker::Tax,
            ),
            old(self)@.acq_matches_consistent(Tracker::Gaap) ==> final(self)@.acq_matches_consistent(Tracker::Gaap),
    {
        let id = self.next_acquisition_id;
        let lot = Acquisition {
            id,
            acquisition_date: n.acquisition_date,
            satoshis: n.satoshis,
            undisposed_satoshis: n.undisposed_satoshis,
            tax_undisposed_satoshis: n.tax_undisposed_satoshis,
            usd_cents_btc_basis: n.usd_cents_btc_basis,
            usd_cents_btc_fair_value: n.usd_cents_btc_fair_value,
            wallet: n.wallet,
        };
        let ghost lv = lot@;
        let ghost pre = self@;
        self.acquisitions.push(lot);
        self.next_acquisition_id = id + 1;
        proof {
            assert(self@.acquisitions =~= pre.acquisitions.push(lv));
            Self::lemma_fresh_acq_preserves(pre, self@, lv);
        }
        id
    }

    /// Appending a fresh, fully-undisposed lot with the next identity
    /// preserves every standing invariant.
    proof fn lemma_fresh_acq_preserves(pre: LedgerView, post: LedgerView, lv: AcquisitionView)
        requires
            pre.wf(),
            pre.globally_consistent(Tracker::Tax),
            pre.globally_consistent(Tracker::Gaap),
            acq_wf(lv),
            pre.next_acquisition_id >= 0,
            lv.id == pre.next_acquisition_id,
            lv.undisposed_satoshis == lv.satoshis,
            lv.tax_undisposed_satoshis == lv.satoshis,
            post == (LedgerView {
                acquisitions: pre.acquisitions.push(lv),
                next_acquisition_id: pre.next_acquisition_id + 1,
                ..pre
            }),
        ensures
            post.wf(),
            post.globally_consistent(Tracker::Tax),
            post.globally_consistent(Tracker::Gaap),
            pre.disp_matches_consistent(Tracker::Tax) ==> post.disp_matches_consistent(
                Tracker::Tax,
            ),
            pre.disp_matches_consistent(Tracker::Gaap) ==> post.disp_matches_consistent(
                Tracker::Gaap,
            ),
            pre.acq_matches_consistent(Tracker::Tax) ==> post.acq_matches_consistent(Tracker::Tax),
            pre.acq_matches_consistent(Tracker::Gaap) ==> post.acq_matches_consistent(
                Tracker::Gaap,
            ),
    {
        lemma_sum_map_push(pre.acquisitions, |a: AcquisitionView| a.satoshis, lv);
        lemma_sum_map_push(
            pre.acquisitions,
            |a: AcquisitionView| acq_undisposed(a, Tracker::Tax),
            lv,
        );
        lemma_sum_map_push(
            pre.acquisitions,
            |a: AcquisitionView| acq_undisposed(a, Tracker::Gaap),
            lv,
        );
        assert forall|i: int| 0 <= i < post.acquisitions.len() implies acq_wf(
            #[trigger] post.acquisitions[i],
        ) && 0 <= post.acquisitions[i].id < post.next_acquisition_id by {
            if i < pre.acquisitions.len() {
                assert(post.acquisitions[i] == pre.acquisitions[i]);
            } else {
                assert(post.acquisitions[i] == lv);
            }
        }
        assert forall|i: int, j: int|
            #![trigger post.acquisitions[i], post.acquisitions[j]]
            0 <= i < j < post.acquisitions.len() implies post.acquisitions[i].id
            != post.acquisitions[j].id by {
            if j < pre.acquisitions.len() {
                assert(post.acquisitions[i] == pre.acquisitions[i]);
                assert(post.acquisitions[j] == pre.acquisitions[j]);
            } else {
                assert(post.acquisitions[j] == lv);
                assert(post.acquisitions[i] == pre.acquisitions[i]);
            }
        }
        if pre.acq_matches_consistent(Tracker::Tax) {
            Self::lemma_no_matches_for_fresh_id(pre, lv.id, Tracker::Tax);
        }
        if pre.acq_matches_consistent(Tracker::Gaap) {
            Self::lemma_no_matches_for_fresh_id(pre, lv.id, Tracker::Gaap);
        }
    }

    /// No match record references an identity that has not been handed out.
    proof fn lemma_no_matches_for_fresh_id(l: LedgerView, id: int, t: Tracker)
        requires
            l.wf(),
            id >= l.next_acquisition_id,
        ensures
            crate::model::matched_for_acq(l.acquisition_dispositions, id, t) == 0,
    {
        let f = |m: MatchView|
            if m.acquisition_id == id && m.match_type == t {
                m.satoshis
            } else {
                0
            };
        assert forall|i: int| 0 <= i < l.acquisition_dispositions.len() implies 0 <= #[trigger] f(
            l.acquisition_dispositions[i],
        ) <= 0 by {}
        lemma_sum_map_bound(l.acquisition_dispositions, f, 0, 0);
    }

    /// Insert a fresh disposition lot, fully unmatched under both trackers,
    /// and hand back its identity.
    pub fn insert_disposition(&mut self, n: NewDisposition) -> (id: u64)
        requires
            old(self).inv(),
            old(self).next_disposition_id < u64::MAX,
            disp_wf(
                DispositionView {
                    id: 0,
                    disposition_date: n.disposition_date as int,
                    satoshis: n.satoshis as int,
                    undisposed_satoshis: n.undisposed_satoshis as int,
                    tax_undisposed_satoshis: n.tax_undisposed_satoshis as int,
                    usd_cents_btc_basis: n.usd_cents_btc_basis as int,
                    wallet: n.wallet@,
                },
            ),
            n.undisposed_satoshis == n.satoshis,
            n.tax_undisposed_satoshis == n.satoshis,
        ensures
            final(self).inv(),
            id == old(self).next_disposition_id,
            final(self)@.next_disposition_id == old(self)@.next_disposition_id + 1,
            final(self)@.next_acquisition_id == old(self)@.next_acquisition_id,
            final(self)@.acquisitions == old(self)@.acquisitions,
            final(self)@.acquisition_dispositions == old(self)@.acquisition_dispositions,
            final(self)@.dispositions == old(self)@.dispositions.push(
                DispositionView {
                    id: id as int,
                    disposition_date: n.disposition_date as int,
                    satoshis: n.satoshis as int,
                    undisposed_satoshis: n.undisposed_satoshis as int,
                    tax_undisposed_satoshis: n.tax_undisposed_satoshis as int,
                    usd_cents_btc_basis: n.usd_cents_btc_basis as int,
                    wallet: n.wallet@,
                },
            ),
            old(self)@.acq_matches_consistent(Tracker::Tax) ==> final(self)@.acq_matches_consistent(
                Tracker::Tax,
            ),
            old(self)@.acq_matches_consistent(Tracker::Gaap) ==> final(self)@.acq_matches_consistent(Tracker::Gaap),
    {
        let id = self.next_disposition_id;
        let lot = Disposition {
            id,
            disposition_date: n.disposition_date,
            satoshis: n.satoshis,
            undisposed_satoshis: n.undisposed_satoshis,
            tax_undisposed_satoshis: n.tax_undisposed_satoshis,
            usd_cents_btc_basis: n.usd_cents_btc_basis,
            wallet: n.wallet,
        };
        let ghost lv = lot@;
        let ghost pre = self@;
        self.dispositions.push(lot);
        self.next_disposition_id = id + 1;
        proof {
            assert(self@.dispositions =~= pre.dispositions.push(lv));
            if pre.disp_matches_consistent(Tracker::Tax) {
                Self::lemma_no_matches_for_fresh_disp_id(pre, lv.id, Tracker::Tax);
            }
            if pre.disp_matches_consistent(Tracker::Gaap) {
                Self::lemma_no_matches_for_fresh_disp_id(pre, lv.id, Tracker::Gaap);
            }
        }
        id
    }

    /// No match record references a disposition identity not yet handed out.
    proof fn lemma_no_matches_for_fresh_disp_id(l: LedgerView, id: int, t: Tracker)
        requires
            l.wf(),
            id >= l.next_disposition_id,
        ensures
            crate::model::matched_for_disp(l.acquisition_dispositions, id, t) == 0,
    {
        let f = |m: MatchView|
            if m.disposition_id == id && m.match_type == t {
                m.satoshis
            } else {
                0
            };
        assert forall|i: int| 0 <= i < l.acquisition_dispositions.len() implies 0 <= #[trigger] f(
            l.acquisition_dispositions[i],
        ) <= 0 by {}
        lemma_sum_map_bound(l.acquisition_dispositions, f, 0, 0);
    }

    /// The total tax-undisposed quantity held in `wallet`.
    pub fn wallet_tax_balance(&self, wallet: &String) -> (r: i128)
        requires
            self@.wf(),
        ensures
            r == crate::model::wallet_tax_undisposed(self@.acquisitions, wallet@),
    {
        let ghost f = |a: AcquisitionView|
            if a.wallet == wallet@ {
                a.tax_undisposed_satoshis
            } else {
                0
            };
        let mut total: i128 = 0;
        let mut i: usize = 0;
        proof {
            assert(self@.acquisitions.take(0) =~= Seq::<AcquisitionView>::empty());
        }
        while i < self.acquisitions.len()
            invariant
                self@.wf(),
                self@.acquisitions.len() == self.acquisitions.len(),
                0 <= i <= self.acquisitions.len(),
                total == sum_map(self@.acquisitions.take(i as int), f),
                0 <= total <= i * (MAX_SATOSHIS as int),
                f == (|a: AcquisitionView|
                    if a.wallet == wallet@ {
                        a.tax_undisposed_satoshis
                    } else {
                        0
                    }),
            decreases self.acquisitions.len() - i,
        {
            proof {
                assert forall|k: int| 0 <= k < self@.acquisitions.take(i as int).len() implies 0
                    <= #[trigger] f(self@.acquisitions.take(i as int)[k]) <= MAX_SATOSHIS as int by {
                    assert(self@.acquisitions.take(i as int)[k] == self@.acquisitions[k]);
                }
                lemma_sum_map_take_succ(self@.acquisitions, f, i as int);
                assert((i + 1) * (MAX_SATOSHIS as int) == i * (MAX_SATOSHIS as int)
                    + MAX_SATOSHIS as int) by (nonlinear_arith);
                assert(i * (MAX_SATOSHIS as int) <= 0xffff_ffff_ffff_ffffi128 * (
                MAX_SATOSHIS as int)) by (nonlinear_arith)
                    requires
                        0 <= i <= 0xffff_ffff_ffff_ffffi128,
                ;
            }
            let a = &self.acquisitions[i];
            if a.wallet == *wallet {
                total = total + a.tax_undisposed_satoshis as i128;
            } else {
                proof {
                    assert(f(self@.acquisitions[i as int]) == 0);
                }
            }
            i = i + 1;
        }
        proof {
            lemma_sum_map_take_all(self@.acquisitions, f);
        }
        total
    }

    /// Index of the earliest acquisition lot that the given tracker pass may
    /// consume: in scope, with tracker quantity left, and strictly after the
    /// cursor key when one is given.  `None` exactly when no such lot exists.
    pub fn find_earliest_eligible(
        &self,
        t: Tracker,
        scope: Scope,
        wallet: &String,
        cursor: Option<(i64, u64)>,
    ) -> (r: Option<usize>)
        requires
            self@.wf(),
        ensures
            match r {
                Some(bi) => {
                    &&& 0 <= bi < self@.acquisitions.len()
                    &&& eligible(self@.acquisitions[bi as int], t, scope, wallet@)
                    &&& cursor_lt(cursor, self@.acquisitions[bi as int])
                    &&& forall|j: int|
                        0 <= j < self@.acquisitions.len() && j != bi && eligible(
                            #[trigger] self@.acquisitions[j],
                            t,
                            scope,
                            wallet@,
                        ) && cursor_lt(cursor, self@.acquisitions[j]) ==> acq_key_lt(
                            self@.acquisitions[bi as int],
                            self@.acquisitions[j],
                        )
                },
                None => forall|j: int|
                    0 <= j < self@.acquisitions.len() ==> !(eligible(
                        #[trigger] self@.acquisitions[j],
                        t,
                        scope,
                        wallet@,
                    ) && cursor_lt(cursor, self@.acquisitions[j])),
            },
    {
        let mut best: Option<usize> = None;
        let mut i: usize = 0;
        while i < self.acquisitions.len()
            invariant
                self@.wf(),
                self@.acquisitions.len() == self.acquisitions.len(),
                0 <= i <= self.acquisitions.len(),
                match best {
                    Some(bi) => {
                        &&& 0 <= bi < i
                        &&& eligible(self@.acquisitions[bi as int], t, scope, wallet@)
                        &&& cursor_lt(cursor, self@.acquisitions[bi as int])
                        &&& forall|j: int|
                            0 <= j < i && j != bi && eligible(
                                #[trigger] self@.acquisitions[j],
                                t,
                                scope,
                                wallet@,
                            ) && cursor_lt(cursor, self@.acquisitions[j]) ==> acq_key_lt(
                                self@.acquisitions[bi as int],
                                self@.acquisitions[j],
                            )
                    },
                    None => forall|j: int|
                        0 <= j < i ==> !(eligible(
                            #[trigger] self@.acquisitions[j],
                            t,
                            scope,
                            wallet@,
                        ) && cursor_lt(cursor, self@.acquisitions[j])),
                },
            decreases self.acquisitions.len() - i,
        {
            let a = &self.acquisitions[i];
            let undisposed = match t {
                Tracker::Tax => a.tax_undisposed_satoshis,
                Tracker::Gaap => a.undisposed_satoshis,
            };
            let scoped = match scope {
                Scope::Universal => true,
                Scope::Wallet => a.wallet == *wallet,
            };
            let after_cursor = match cursor {
                None => true,
                Some((cd, cid)) => a.acquisition_date > cd || (a.acquisition_date == cd && a.id
                    > cid),
            };
            if undisposed > 0 && scoped && after_cursor {
                match best {
                    None => {
                        best = Some(i);
                    },
                    Some(bi) => {
                        let b = &self.acquisitions[bi];
                        if a.acquisition_date < b.acquisition_date || (a.acquisition_date
                            == b.acquisition_date && a.id < b.id) {
                            best = Some(i);
                        }
                    },
                }
            }
            i = i + 1;
        }
        best
    }

    /// Index of the earliest disposition with unmatched quantity left under
    /// tracker `t`; `None` exactly when every disposition is fully matched.
    pub fn find_earliest_unmatched_disposition(&self, t: Tracker) -> (r: Option<usize>)
        requires
            self@.wf(),
        ensures
            match r {
                Some(bi) => {
                    &&& 0 <= bi < self@.dispositions.len()
                    &&& crate::model::disp_undisposed(self@.dispositions[bi as int], t) != 0
                    &&& forall|j: int|
                        0 <= j < self@.dispositions.len() && j != bi
                            && crate::model::disp_undisposed(#[trigger] self@.dispositions[j], t)
                            != 0 ==> disp_key_lt(
                            self@.dispositions[bi as int],
                            self@.dispositions[j],
                        )
                },
                None => forall|j: int|
                    0 <= j < self@.dispositions.len() ==> crate::model::disp_undisposed(
                        #[trigger] self@.dispositions[j],
                        t,
                    ) == 0,
            },
    {
        let mut best: Option<usize> = None;
        let mut i: usize = 0;
        while i < self.dispositions.len()
            invariant
                self@.wf(),
                self@.dispositions.len() == self.dispositions.len(),
                0 <= i <= self.dispositions.len(),
                match best {
                    Some(bi) => {
                        &&& 0 <= bi < i
                        &&& crate::model::disp_undisposed(self@.dispositions[bi as int], t) != 0
                        &&& forall|j: int|
                            0 <= j < i && j != bi && crate::model::disp_undisposed(
                                #[trigger] self@.dispositions[j],
                                t,
                            ) != 0 ==> disp_key_lt(
                                self@.dispositions[bi as int],
                                self@.dispositions[j],
                            )
                    },
                    None => forall|j: int|
                        0 <= j < i ==> crate::model::disp_undisposed(
                            #[trigger] self@.dispositions[j],
                            t,
                        ) == 0,
                },
            decreases self.dispositions.len() - i,
        {
            let d = &self.dispositions[i];
            let undisposed = match t {
                Tracker::Tax => d.tax_undisposed_satoshis,
                Tracker::Gaap => d.undisposed_satoshis,
            };
            if undisposed != 0 {
                match best {
                    None => {
                        best = Some(i);
                    },
                    Some(bi) => {
                        let b = &self.dispositions[bi];
                        if d.disposition_date < b.disposition_date || (d.disposition_date
                            == b.disposition_date && d.id < b.id) {
                            best = Some(i);
                        }
                    },
                }
            }
            i = i + 1;
        }
        best
    }
}

/// Strict FIFO order on disposition lots: timestamp, identity as tie-break.
pub open spec fn disp_key_lt(a: DispositionView, b: DispositionView) -> bool {
    a.disposition_date < b.disposition_date || (a.disposition_date == b.disposition_date && a.id
        < b.id)
}

/// Whether lot `a` lies strictly after the cursor key.
pub open spec fn cursor_lt(cursor: Option<(i64, u64)>, a: AcquisitionView) -> bool {
    match cursor {
        None => true,
        Some(c) => a.acquisition_date > c.0 || (a.acquisition_date == c.0 && a.id > c.1),
    }
}

impl Ledger {
    /// Record one match: decrement the acquisition's tracker, move the
    /// disposition's tracker toward zero, and append the match record.
    /// The record is immutable once written.
    pub fn apply_match(
        &mut self,
        ai: usize,
        di: usize,
        t: Tracker,
        quantity: i64,
        basis: i64,
        rgl: i64,
        term: crate::model::Term,
    )
        requires
            old(self).inv(),
            ai < old(self)@.acquisitions.len(),
            di < old(self)@.dispositions.len(),
            0 < quantity,
            quantity <= acq_undisposed(old(self)@.acquisitions[ai as int], t),
            quantity <= -crate::model::disp_undisposed(old(self)@.dispositions[di as int], t),
            0 <= basis <= crate::model::MAX_BASIS_CENTS,
            -crate::model::MAX_BASIS_CENTS <= rgl <= crate::model::MAX_BASIS_CENTS,
        ensures
            final(self).inv(),
            final(self)@.acquisitions == old(self)@.acquisitions.update(
                ai as int,
                crate::model::acq_with_undisposed(
                    old(self)@.acquisitions[ai as int],
                    t,
                    acq_undisposed(old(self)@.acquisitions[ai as int], t) - quantity,
                ),
            ),
            final(self)@.dispositions == old(self)@.dispositions.update(
                di as int,
                crate::model::disp_with_undisposed(
                    old(self)@.dispositions[di as int],
                    t,
                    crate::model::disp_undisposed(old(self)@.dispositions[di as int], t)
                        + quantity,
                ),
            ),
            final(self)@.acquisition_dispositions == old(self)@.acquisition_dispositions.push(
                (MatchView {
                    acquisition_id: old(self)@.acquisitions[ai as int].id,
                    disposition_id: old(self)@.dispositions[di as int].id,
                    satoshis: quantity as int,
                    basis: basis as int,
                    rgl: rgl as int,
                    term: term,
                    match_type: t,
                }),
            ),
            final(self)@.next_acquisition_id == old(self)@.next_acquisition_id,
            final(self)@.next_disposition_id == old(self)@.next_disposition_id,
            old(self)@.acq_matches_consistent(Tracker::Tax) ==> final(self)@.acq_matches_consistent(
                Tracker::Tax,
            ),
            old(self)@.acq_matches_consistent(Tracker::Gaap) ==> final(self)@.acq_matches_consistent(Tracker::Gaap),
    {
        let mut lot = self.acquisitions[ai].clone();
        let mut disp = self.dispositions[di].clone();
        let rec = AcquisitionDisposition {
            acquisition_id: lot.id,
            disposition_id: disp.id,
            satoshis: quantity,
            basis,
            rgl,
            term,
            match_type: t,
        };
        match t {
            Tracker::Tax => {
                lot.tax_undisposed_satoshis = lot.tax_undisposed_satoshis - quantity;
                disp.tax_undisposed_satoshis = disp.tax_undisposed_satoshis + quantity;
            },
            Tracker::Gaap => {
                lot.undisposed_satoshis = lot.undisposed_satoshis - quantity;
                disp.undisposed_satoshis = disp.undisposed_satoshis + quantity;
            },
        }
        let ghost pre = self@;
        let ghost recv = rec@;
        let ghost lotv = lot@;
        let ghost dispv = disp@;
        self.acquisitions[ai] = lot;
        self.dispositions[di] = disp;
        self.acquisition_dispositions.push(rec);
        proof {
            assert(self@.acquisitions =~= pre.acquisitions.update(ai as int, lotv));
            assert(self@.dispositions =~= pre.dispositions.update(di as int, dispv));
            assert(self@.acquisition_dispositions =~= pre.acquisition_dispositions.push(recv));
            assert(lotv =~= crate::model::acq_with_undisposed(
                pre.acquisitions[ai as int],
                t,
                acq_undisposed(pre.acquisitions[ai as int], t) - quantity,
            ));
            assert(dispv =~= crate::model::disp_with_undisposed(
                pre.dispositions[di as int],
                t,
                crate::model::disp_undisposed(pre.dispositions[di as int], t) + quantity,
            ));
            Self::lemma_apply_match_preserves(pre, self@, ai as int, di as int, t, recv);
        }
    }

    /// Recording a match preserves well-formedness, disposition-side and
    /// global matching conservation, and acquisition-side conservation
    /// where it already held.
    proof fn lemma_apply_match_preserves(
        pre: LedgerView,
        post: LedgerView,
        ai: int,
        di: int,
        t: Tracker,
        rec: MatchView,
    )
        requires
            pre.wf(),
            pre.disp_matches_consistent(Tracker::Tax),
            pre.disp_matches_consistent(Tracker::Gaap),
            pre.globally_consistent(Tracker::Tax),
            pre.globally_consistent(Tracker::Gaap),
            0 <= ai < pre.acquisitions.len(),
            0 <= di < pre.dispositions.len(),
            0 < rec.satoshis,
            rec.satoshis <= acq_undisposed(pre.acquisitions[ai], t),
            rec.satoshis <= -crate::model::disp_undisposed(pre.dispositions[di], t),
            0 <= rec.basis <= crate::model::MAX_BASIS_CENTS,
            -crate::model::MAX_BASIS_CENTS <= rec.rgl <= crate::model::MAX_BASIS_CENTS,
            rec.match_type == t,
            rec.acquisition_id == pre.acquisitions[ai].id,
            rec.disposition_id == pre.dispositions[di].id,
            post.acquisitions == pre.acquisitions.update(
                ai,
                crate::model::acq_with_undisposed(
                    pre.acquisitions[ai],
                    t,
                    acq_undisposed(pre.acquisitions[ai], t) - rec.satoshis,
                ),
            ),
            post.dispositions == pre.dispositions.update(
                di,
                crate::model::disp_with_undisposed(
                    pre.dispositions[di],
                    t,
                    crate::model::disp_undisposed(pre.dispositions[di], t) + rec.satoshis,
                ),
            ),
            post.acquisition_dispositions == pre.acquisition_dispositions.push(rec),
            post.next_acquisition_id == pre.next_acquisition_id,
            post.next_disposition_id == pre.next_disposition_id,
        ensures
            post.wf(),
            post.disp_matches_consistent(Tracker::Tax),
            post.disp_matches_consistent(Tracker::Gaap),
            post.globally_consistent(Tracker::Tax),
            post.globally_consistent(Tracker::Gaap),
            pre.acq_matches_consistent(Tracker::Tax) ==> post.acq_matches_consistent(Tracker::Tax),
            pre.acq_matches_consistent(Tracker::Gaap) ==> post.acq_matches_consistent(
                Tracker::Gaap,
            ),
    {
        let pa = pre.acquisitions[ai];
        let pd = pre.dispositions[di];
        let na = crate::model::acq_with_undisposed(
            pa,
            t,
            acq_undisposed(pa, t) - rec.satoshis,
        );
        let nd = crate::model::disp_with_undisposed(
            pd,
            t,
            crate::model::disp_undisposed(pd, t) + rec.satoshis,
        );
        assert forall|i: int| 0 <= i < post.acquisitions.len() implies acq_wf(
            #[trigger] post.acquisitions[i],
        ) && 0 <= post.acquisitions[i].id < post.next_acquisition_id
            && post.acquisitions[i].id == pre.acquisitions[i].id by {
            if i != ai {
                assert(post.acquisitions[i] == pre.acquisitions[i]);
            }
        }
        assert forall|i: int| 0 <= i < post.dispositions.len() implies disp_wf(
            #[trigger] post.dispositions[i],
        ) && 0 <= post.dispositions[i].id < post.next_disposition_id
            && post.dispositions[i].id == pre.dispositions[i].id by {
            if i != di {
                assert(post.dispositions[i] == pre.dispositions[i]);
            }
        }
        Self::lemma_disp_mc_after_match(pre, post, di, t, rec, Tracker::Tax);
        Self::lemma_disp_mc_after_match(pre, post, di, t, rec, Tracker::Gaap);
        Self::lemma_global_after_match(pre, post, ai, di, t, rec, Tracker::Tax);
        Self::lemma_global_after_match(pre, post, ai, di, t, rec, Tracker::Gaap);
        if pre.acq_matches_consistent(Tracker::Tax) {
            Self::lemma_acq_mc_after_match(pre, post, ai, di, t, rec, Tracker::Tax);
        }
        if pre.acq_matches_consistent(Tracker::Gaap) {
            Self::lemma_acq_mc_after_match(pre, post, ai, di, t, rec, Tracker::Gaap);
        }
    }

    /// Disposition-side conservation under tracker `t2` survives a match
    /// recorded under tracker `t`.
    proof fn lemma_disp_mc_after_match(
        pre: LedgerView,
        post: LedgerView,
        di: int,
        t: Tracker,
        rec: MatchView,
        t2: Tracker,
    )
        requires
            pre.wf(),
            pre.disp_matches_consistent(t2),
            0 <= di < pre.dispositions.len(),
            rec.match_type == t,
            rec.disposition_id == pre.dispositions[di].id,
            post.dispositions == pre.dispositions.update(
                di,
                crate::model::disp_with_undisposed(
                    pre.dispositions[di],
                    t,
                    crate::model::disp_undisposed(pre.dispositions[di], t) + rec.satoshis,
                ),
            ),
            post.acquisition_dispositions == pre.acquisition_dispositions.push(rec),
        ensures
            post.disp_matches_consistent(t2),
    {
        assert forall|i: int| 0 <= i < post.dispositions.len() implies crate::model::disp_undisposed(
            post.dispositions[i],
            t2,
        ) - (#[trigger] post.dispositions[i]).satoshis == crate::model::matched_for_disp(
            post.acquisition_dispositions,
            post.dispositions[i].id,
            t2,
        ) by {
            let id = post.dispositions[i].id;
            let f = |m: MatchView|
                if m.disposition_id == id && m.match_type == t2 {
                    m.satoshis
                } else {
                    0
                };
            lemma_sum_map_push(pre.acquisition_dispositions, f, rec);
            if i != di {
                assert(post.dispositions[i] == pre.dispositions[i]);
                assert(pre.dispositions[i].id != pre.dispositions[di].id);
                assert(f(rec) == 0);
            }
        }
    }

    /// Acquisition-side conservation under tracker `t2` survives a match
    /// recorded under tracker `t`.
    proof fn lemma_acq_mc_after_match(
        pre: LedgerView,
        post: LedgerView,
        ai: int,
        di: int,
        t: Tracker,
        rec: MatchView,
        t2: Tracker,
    )
        requires
            pre.wf(),
            pre.acq_matches_consistent(t2),
            0 <= ai < pre.acquisitions.len(),
            rec.match_type == t,
            rec.acquisition_id == pre.acquisitions[ai].id,
            post.acquisitions == pre.acquisitions.update(
                ai,
                crate::model::acq_with_undisposed(
                    pre.acquisitions[ai],
                    t,
                    acq_undisposed(pre.acquisitions[ai], t) - rec.satoshis,
                ),
            ),
            post.acquisition_dispositions == pre.acquisition_dispositions.push(rec),
        ensures
            post.acq_matches_consistent(t2),
    {
        assert forall|i: int| 0 <= i < post.acquisitions.len() implies (
        #[trigger] post.acquisitions[i]).satoshis - acq_undisposed(post.acquisitions[i], t2)
            == crate::model::matched_for_acq(
            post.acquisition_dispositions,
            post.acquisitions[i].id,
            t2,
        ) by {
            let id = post.acquisitions[i].id;
            let f = |m: MatchView|
                if m.acquisition_id == id && m.match_type == t2 {
                    m.satoshis
                } else {
                    0
                };
            lemma_sum_map_push(pre.acquisition_dispositions, f, rec);
            if i != ai {
                assert(post.acquisitions[i] == pre.acquisitions[i]);
                assert(pre.acquisitions[i].id != pre.acquisitions[ai].id);
                assert(f(rec) == 0);
            }
        }
    }

    /// Global conservation under tracker `t2` survives a match recorded
    /// under tracker `t`.
    proof fn lemma_global_after_match(
        pre: LedgerView,
        post: LedgerView,
        ai: int,
        di: int,
        t: Tracker,
        rec: MatchView,
        t2: Tracker,
    )
        requires
            pre.globally_consistent(t2),
            0 <= ai < pre.acquisitions.len(),
            rec.match_type == t,
            post.acquisitions == pre.acquisitions.update(
                ai,
                crate::model::acq_with_undisposed(
                    pre.acquisitions[ai],
                    t,
                    acq_undisposed(pre.acquisitions[ai], t) - rec.satoshis,
                ),
            ),
            post.acquisition_dispositions == pre.acquisition_dispositions.push(rec),
        ensures
            post.globally_consistent(t2),
    {
        let na = crate::model::acq_with_undisposed(
            pre.acquisitions[ai],
            t,
            acq_undisposed(pre.acquisitions[ai], t) - rec.satoshis,
        );
        crate::sums::lemma_sum_map_update(
            pre.acquisitions,
            |a: AcquisitionView| a.satoshis,
            ai,
            na,
        );
        crate::sums::lemma_sum_map_update(
            pre.acquisitions,
            |a: AcquisitionView| acq_undisposed(a, t2),
            ai,
            na,
        );
        lemma_sum_map_push(
            pre.acquisition_dispositions,
            |m: MatchView|
                if m.match_type == t2 {
                    m.satoshis
                } else {
                    0
                },
            rec,
        );
    }

    /// Reassign one lot's wallet tag; every quantity is untouched, so all
    /// conservation properties carry over unchanged.
    pub fn set_wallet(&mut self, i: usize, wallet: String)
        requires
            old(self).inv(),
            i < old(self)@.acquisitions.len(),
        ensures
            final(self).inv(),
            final(self)@.acquisitions == old(self)@.acquisitions.update(
                i as int,
                crate::model::acq_with_wallet(old(self)@.acquisitions[i as int], wallet@),
            ),
            final(self)@.dispositions == old(self)@.dispositions,
            final(self)@.acquisition_dispositions == old(self)@.acquisition_dispositions,
            final(self)@.next_acquisition_id == old(self)@.next_acquisition_id,
            final(self)@.next_disposition_id == old(self)@.next_disposition_id,
            old(self)@.acq_matches_consistent(Tracker::Tax) ==> final(self)@.acq_matches_consistent(
                Tracker::Tax,
            ),
            old(self)@.acq_matches_consistent(Tracker::Gaap) ==> final(self)@.acq_matches_consistent(Tracker::Gaap),
    {
        let mut lot = self.acquisitions[i].clone();
        lot.wallet = wallet;
        let ghost pre = self@;
        let ghost lotv = lot@;
        self.acquisitions[i] = lot;
        proof {
            assert(self@.acquisitions =~= pre.acquisitions.update(i as int, lotv));
            assert(lotv =~= crate::model::acq_with_wallet(pre.acquisitions[i as int], wallet@));
            Self::lemma_wallet_update_preserves(pre, self@, i as int, wallet@);
        }
    }

    /// A wallet reassignment changes no quantity, so every invariant and
    /// every matched sum is unchanged.
    proof fn lemma_wallet_update_preserves(
        pre: LedgerView,
        post: LedgerView,
        i: int,
        wallet: Seq<char>,
    )
        requires
            pre.wf(),
            0 <= i < pre.acquisitions.len(),
            post.acquisitions == pre.acquisitions.update(
                i,
                crate::model::acq_with_wallet(pre.acquisitions[i], wallet),
            ),
            post.dispositions == pre.dispositions,
            post.acquisition_dispositions == pre.acquisition_dispositions,
            post.next_acquisition_id == pre.next_acquisition_id,
            post.next_disposition_id == pre.next_disposition_id,
        ensures
            post.wf(),
            pre.disp_matches_consistent(Tracker::Tax) ==> post.disp_matches_consistent(
                Tracker::Tax,
            ),
            pre.disp_matches_consistent(Tracker::Gaap) ==> post.disp_matches_consistent(
                Tracker::Gaap,
            ),
            pre.globally_consistent(Tracker::Tax) ==> post.globally_consistent(Tracker::Tax),
            pre.globally_consistent(Tracker::Gaap) ==> post.globally_consistent(Tracker::Gaap),
            pre.acq_matches_consistent(Tracker::Tax) ==> post.acq_matches_consistent(Tracker::Tax),
            pre.acq_matches_consistent(Tracker::Gaap) ==> post.acq_matches_consistent(
                Tracker::Gaap,
            ),
    {
        let na = crate::model::acq_with_wallet(pre.acquisitions[i], wallet);
        assert forall|j: int| 0 <= j < post.acquisitions.len() implies acq_wf(
            #[trigger] post.acquisitions[j],
        ) && 0 <= post.acquisitions[j].id < post.next_acquisition_id
            && post.acquisitions[j].id == pre.acquisitions[j].id
            && post.acquisitions[j].satoshis == pre.acquisitions[j].satoshis
            && post.acquisitions[j].undisposed_satoshis == pre.acquisitions[j].undisposed_satoshis
            && post.acquisitions[j].tax_undisposed_satoshis
            == pre.acquisitions[j].tax_undisposed_satoshis by {
            if j != i {
                assert(post.acquisitions[j] == pre.acquisitions[j]);
            }
        }
        crate::sums::lemma_sum_map_update(
            pre.acquisitions,
            |a: AcquisitionView| a.satoshis,
            i,
            na,
        );
        crate::sums::lemma_sum_map_update(
            pre.acquisitions,
            |a: AcquisitionView| acq_undisposed(a, Tracker::Tax),
            i,
            na,
        );
        crate::sums::lemma_sum_map_update(
            pre.acquisitions,
            |a: AcquisitionView| acq_undisposed(a, Tracker::Gaap),
            i,
            na,
        );
    }
}

impl Ledger {
    /// Divide one acquisition lot in place, splitting off `transferred_tax`
    /// tax-undisposed units into a new lot tagged with `destination_wallet`.
    ///
    /// The quantity and GAAP amounts split off are proportional to the
    /// tax-undisposed ratio, rounded to the nearest unit with ties away from
    /// zero; the parent keeps its identity, timestamp, prices and wallet.
    /// For every one of the three quantity fields, parent and child sum back
    /// exactly to the original lot.
    pub fn split_lot(&mut self, i: usize, transferred_tax: i64, destination_wallet: String) -> (child_id: u64)
        requires
            old(self).inv(),
            i < old(self)@.acquisitions.len(),
            0 < transferred_tax < old(self)@.acquisitions[i as int].tax_undisposed_satoshis,
            old(self).next_acquisition_id < u64::MAX,
        ensures
            final(self).inv(),
            child_id == old(self).next_acquisition_id,
            ({
                let lot = old(self)@.acquisitions[i as int];
                let tt = transferred_tax as int;
                let ts = rounded_div(lot.satoshis * tt, lot.tax_undisposed_satoshis);
                let tg = rounded_div(lot.undisposed_satoshis * tt, lot.tax_undisposed_satoshis);
                final(self)@.acquisitions == old(self)@.acquisitions.update(
                    i as int,
                    crate::model::split_parent(lot, ts, tg, tt),
                ).push(
                    crate::model::split_child(
                        lot,
                        child_id as int,
                        ts,
                        tg,
                        tt,
                        destination_wallet@,
                    ),
                )
            }),
            final(self)@.dispositions == old(self)@.dispositions,
            final(self)@.acquisition_dispositions == old(self)@.acquisition_dispositions,
            final(self)@.next_acquisition_id == old(self)@.next_acquisition_id + 1,
            final(self)@.next_disposition_id == old(self)@.next_disposition_id,
            ({
                let lot = old(self)@.acquisitions[i as int];
                let parent = final(self)@.acquisitions[i as int];
                let child = final(self)@.acquisitions.last();
                &&& parent.satoshis + child.satoshis == lot.satoshis
                &&& parent.undisposed_satoshis + child.undisposed_satoshis
                    == lot.undisposed_satoshis
                &&& parent.tax_undisposed_satoshis + child.tax_undisposed_satoshis
                    == lot.tax_undisposed_satoshis
                &&& child.tax_undisposed_satoshis == transferred_tax
                &&& child.wallet == destination_wallet@
                &&& child.acquisition_date == lot.acquisition_date
                &&& child.usd_cents_btc_basis == lot.usd_cents_btc_basis
                &&& child.usd_cents_btc_fair_value == lot.usd_cents_btc_fair_value
                &&& parent.id == lot.id
                &&& parent.wallet == lot.wallet
            }),
    {
        let tt = transferred_tax;
        let lot_satoshis = self.acquisitions[i].satoshis;
        let lot_gaap = self.acquisitions[i].undisposed_satoshis;
        let lot_tax = self.acquisitions[i].tax_undisposed_satoshis;
        proof {
            assert(acq_wf(self@.acquisitions[i as int]));
            assert((lot_satoshis as int) * (tt as int) <= (MAX_SATOSHIS as int) * (
            MAX_SATOSHIS as int) && (lot_gaap as int) * (tt as int) <= (MAX_SATOSHIS as int) * (
            MAX_SATOSHIS as int) && 0 <= (lot_gaap as int) * (tt as int) && 0 <= (
            lot_satoshis as int) * (tt as int)) by (nonlinear_arith)
                requires
                    0 <= lot_satoshis <= MAX_SATOSHIS,
                    0 <= lot_gaap <= MAX_SATOSHIS,
                    0 < tt <= MAX_SATOSHIS,
            ;
        }
        let ts128 = crate::rounding::rounding_div(
            (lot_satoshis as i128) * (tt as i128),
            lot_tax as i128,
        );
        let tg128 = crate::rounding::rounding_div(
            (lot_gaap as i128) * (tt as i128),
            lot_tax as i128,
        );
        proof {
            Self::lemma_split_amounts(
                lot_satoshis as int,
                lot_gaap as int,
                lot_tax as int,
                tt as int,
            );
        }
        let ts = ts128 as i64;
        let tg = tg128 as i64;
        let mut parent = self.acquisitions[i].clone();
        parent.satoshis = parent.satoshis - ts;
        parent.undisposed_satoshis = parent.undisposed_satoshis - tg;
        parent.tax_undisposed_satoshis = parent.tax_undisposed_satoshis - tt;
        let child_id = self.next_acquisition_id;
        let child = Acquisition {
            id: child_id,
            acquisition_date: parent.acquisition_date,
            satoshis: ts,
            undisposed_satoshis: tg,
            tax_undisposed_satoshis: tt,
            usd_cents_btc_basis: parent.usd_cents_btc_basis,
            usd_cents_btc_fair_value: parent.usd_cents_btc_fair_value,
            wallet: destination_wallet,
        };
        let ghost pre = self@;
        let ghost parentv = parent@;
        let ghost childv = child@;
        self.acquisitions[i] = parent;
        self.acquisitions.push(child);
        self.next_acquisition_id = child_id + 1;
        proof {
            let lot = pre.acquisitions[i as int];
            assert(self@.acquisitions =~= pre.acquisitions.update(i as int, parentv).push(childv));
            assert(parentv =~= crate::model::split_parent(lot, ts as int, tg as int, tt as int));
            assert(childv =~= crate::model::split_child(
                lot,
                child_id as int,
                ts as int,
                tg as int,
                tt as int,
                childv.wallet,
            ));
            Self::lemma_split_preserves(pre, self@, i as int, ts as int, tg as int, tt as int, childv.wallet);
        }
        child_id
    }

    /// The proportional split amounts respect every tracker bound: each lies
    /// between zero and its source field, the child's quantity covers both
    /// of the child's trackers, and what remains with the parent covers both
    /// of the parent's trackers.
    proof fn lemma_split_amounts(s: int, g: int, t_all: int, tt: int)
        requires
            0 <= g <= s,
            0 < t_all <= s,
            0 < tt < t_all,
        ensures
            ({
                let ts = rounded_div(s * tt, t_all);
                let tg = rounded_div(g * tt, t_all);
                &&& 0 <= tg <= g
                &&& tt <= ts <= s
                &&& tg <= ts
                &&& g - tg <= s - ts
                &&& t_all - tt <= s - ts
            }),
    {
        let ts = rounded_div(s * tt, t_all);
        let tg = rounded_div(g * tt, t_all);
        assert(0 <= g * tt <= g * t_all) by (nonlinear_arith)
            requires
                0 <= g,
                0 < tt < t_all,
        ;
        lemma_rounded_div_monotonic(g * tt, g * t_all, t_all);
        lemma_rounded_div_exact(g, t_all);
        assert(0 <= s * tt <= s * t_all) by (nonlinear_arith)
            requires
                0 <= s,
                0 < tt < t_all,
        ;
        lemma_rounded_div_monotonic(s * tt, s * t_all, t_all);
        lemma_rounded_div_exact(s, t_all);
        assert(0 <= tt * t_all <= s * tt) by (nonlinear_arith)
            requires
                0 < tt,
                0 < t_all <= s,
        ;
        lemma_rounded_div_monotonic(tt * t_all, s * tt, t_all);
        lemma_rounded_div_exact(tt, t_all);
        assert(g * tt <= s * tt) by (nonlinear_arith)
            requires
                g <= s,
                0 < tt,
        ;
        lemma_rounded_div_monotonic(g * tt, s * tt, t_all);
        assert(s * tt - g * tt <= (s - g) * t_all) by (nonlinear_arith)
            requires
                g <= s,
                0 < tt < t_all,
        ;
        lemma_rounded_div_diff(g * tt, s * tt, t_all, s - g);
        assert(s * tt - tt * t_all <= (s - t_all) * t_all) by (nonlinear_arith)
            requires
                0 < t_all <= s,
                0 < tt < t_all,
        ;
        lemma_rounded_div_diff(tt * t_all, s * tt, t_all, s - t_all);
    }

    /// Replacing one lot by a parent/child pair that conserves all three
    /// quantity fields preserves well-formedness and every global sum;
    /// dispositions and matches are untouched.
    proof fn lemma_split_preserves(
        pre: LedgerView,
        post: LedgerView,
        i: int,
        ts: int,
        tg: int,
        tt: int,
        child_wallet: Seq<char>,
    )
        requires
            pre.wf(),
            pre.disp_matches_consistent(Tracker::Tax),
            pre.disp_matches_consistent(Tracker::Gaap),
            pre.globally_consistent(Tracker::Tax),
            pre.globally_consistent(Tracker::Gaap),
            0 <= i < pre.acquisitions.len(),
            pre.next_acquisition_id >= 0,
            acq_wf(crate::model::split_parent(pre.acquisitions[i], ts, tg, tt)),
            acq_wf(
                crate::model::split_child(
                    pre.acquisitions[i],
                    pre.next_acquisition_id,
                    ts,
                    tg,
                    tt,
                    child_wallet,
                ),
            ),
            post.acquisitions == pre.acquisitions.update(
                i,
                crate::model::split_parent(pre.acquisitions[i], ts, tg, tt),
            ).push(
                crate::model::split_child(
                    pre.acquisitions[i],
                    pre.next_acquisition_id,
                    ts,
                    tg,
                    tt,
                    child_wallet,
                ),
            ),
            post.dispositions == pre.dispositions,
            post.acquisition_dispositions == pre.acquisition_dispositions,
            post.next_acquisition_id == pre.next_acquisition_id + 1,
            post.next_disposition_id == pre.next_disposition_id,
        ensures
            post.wf(),
            post.disp_matches_consistent(Tracker::Tax),
            post.disp_matches_consistent(Tracker::Gaap),
            post.globally_consistent(Tracker::Tax),
            post.globally_consistent(Tracker::Gaap),
    {
        let lot = pre.acquisitions[i];
        let parent = crate::model::split_parent(lot, ts, tg, tt);
        let child = crate::model::split_child(
            lot,
            pre.next_acquisition_id,
            ts,
            tg,
            tt,
            child_wallet,
        );
        let mid = pre.acquisitions.update(i, parent);
        assert forall|j: int| 0 <= j < post.acquisitions.len() implies acq_wf(
            #[trigger] post.acquisitions[j],
        ) && 0 <= post.acquisitions[j].id < post.next_acquisition_id by {
            if j < pre.acquisitions.len() {
                if j == i {
                    assert(post.acquisitions[j] == parent);
                } else {
                    assert(post.acquisitions[j] == pre.acquisitions[j]);
                }
            } else {
                assert(post.acquisitions[j] == child);
            }
        }
        assert forall|j: int, k: int|
            #![trigger post.acquisitions[j], post.acquisitions[k]]
            0 <= j < k < post.acquisitions.len() implies post.acquisitions[j].id
            != post.acquisitions[k].id by {
            if k < pre.acquisitions.len() {
                assert(post.acquisitions[j].id == pre.acquisitions[j].id);
                assert(post.acquisitions[k].id == pre.acquisitions[k].id);
            } else {
                assert(post.acquisitions[k] == child);
                assert(post.acquisitions[j].id == pre.acquisitions[j].id);
            }
        }
        crate::sums::lemma_sum_map_update(
            pre.acquisitions,
            |a: AcquisitionView| a.satoshis,
            i,
            parent,
        );
        lemma_sum_map_push(mid, |a: AcquisitionView| a.satoshis, child);
        crate::sums::lemma_sum_map_update(
            pre.acquisitions,
            |a: AcquisitionView| acq_undisposed(a, Tracker::Tax),
            i,
            parent,
        );
        lemma_sum_map_push(mid, |a: AcquisitionView| acq_undisposed(a, Tracker::Tax), child);
        crate::sums::lemma_sum_map_update(
            pre.acquisitions,
            |a: AcquisitionView| acq_undisposed(a, Tracker::Gaap),
            i,
            parent,
        );
        lemma_sum_map_push(mid, |a: AcquisitionView| acq_undisposed(a, Tracker::Gaap), child);
    }

    /// Divide one acquisition lot whose two trackers agree, keeping `keep`
    /// units of each tracker with the parent and splitting off the rest into
    /// a new lot tagged with `destination_wallet`.  Both trackers and the
    /// quantity are reduced by the exact same amount, so no rounding is
    /// involved, and acquisition-side matching conservation survives.
    pub fn split_lot_equal(&mut self, i: usize, keep: i64, destination_wallet: String) -> (child_id: u64)
        requires
            old(self).inv(),
            i < old(self)@.acquisitions.len(),
            old(self)@.acquisitions[i as int].undisposed_satoshis == old(
                self,
            )@.acquisitions[i as int].tax_undisposed_satoshis,
            0 < keep < old(self)@.acquisitions[i as int].undisposed_satoshis,
            old(self).next_acquisition_id < u64::MAX,
        ensures
            final(self).inv(),
            child_id == old(self).next_acquisition_id,
            ({
                let lot = old(self)@.acquisitions[i as int];
                let excess = lot.undisposed_satoshis - keep as int;
                final(self)@.acquisitions == old(self)@.acquisitions.update(
                    i as int,
                    crate::model::split_parent(lot, excess, excess, excess),
                ).push(
                    crate::model::split_child(
                        lot,
                        child_id as int,
                        excess,
                        excess,
                        excess,
                        destination_wallet@,
                    ),
                )
            }),
            final(self)@.dispositions == old(self)@.dispositions,
            final(self)@.acquisition_dispositions == old(self)@.acquisition_dispositions,
            final(self)@.next_acquisition_id == old(self)@.next_acquisition_id + 1,
            final(self)@.next_disposition_id == old(self)@.next_disposition_id,
            old(self)@.acq_matches_consistent(Tracker::Tax) ==> final(self)@.acq_matches_consistent(
                Tracker::Tax,
            ),
            old(self)@.acq_matches_consistent(Tracker::Gaap) ==> final(self)@.acq_matches_consistent(Tracker::Gaap),
            ({
                let lot = old(self)@.acquisitions[i as int];
                let parent = final(self)@.acquisitions[i as int];
                let child = final(self)@.acquisitions.last();
                &&& parent.satoshis + child.satoshis == lot.satoshis
                &&& parent.undisposed_satoshis + child.undisposed_satoshis
                    == lot.undisposed_satoshis
                &&& parent.tax_undisposed_satoshis + child.tax_undisposed_satoshis
                    == lot.tax_undisposed_satoshis
                &&& parent.undisposed_satoshis == keep
                &&& parent.tax_undisposed_satoshis == keep
            }),
    {
        proof {
            assert(acq_wf(self@.acquisitions[i as int]));
        }
        let excess = self.acquisitions[i].undisposed_satoshis - keep;
        let mut parent = self.acquisitions[i].clone();
        parent.satoshis = parent.satoshis - excess;
        parent.undisposed_satoshis = parent.undisposed_satoshis - excess;
        parent.tax_undisposed_satoshis = parent.tax_undisposed_satoshis - excess;
        let child_id = self.next_acquisition_id;
        let child = Acquisition {
            id: child_id,
            acquisition_date: parent.acquisition_date,
            satoshis: excess,
            undisposed_satoshis: excess,
            tax_undisposed_satoshis: excess,
            usd_cents_btc_basis: parent.usd_cents_btc_basis,
            usd_cents_btc_fair_value: parent.usd_cents_btc_fair_value,
            wallet: destination_wallet,
        };
        let ghost pre = self@;
        let ghost parentv = parent@;
        let ghost childv = child@;
        self.acquisitions[i] = parent;
        self.acquisitions.push(child);
        self.next_acquisition_id = child_id + 1;
        proof {
            let lot = pre.acquisitions[i as int];
            let e = excess as int;
            assert(self@.acquisitions =~= pre.acquisitions.update(i as int, parentv).push(childv));
            assert(parentv =~= crate::model::split_parent(lot, e, e, e));
            assert(childv =~= crate::model::split_child(
                lot,
                child_id as int,
                e,
                e,
                e,
                childv.wallet,
            ));
            Self::lemma_split_preserves(pre, self@, i as int, e, e, e, childv.wallet);
            if pre.acq_matches_consistent(Tracker::Tax) {
                Self::lemma_acq_mc_after_equal_split(pre, self@, i as int, e, childv.wallet, Tracker::Tax);
            }
            if pre.acq_matches_consistent(Tracker::Gaap) {
                Self::lemma_acq_mc_after_equal_split(pre, self@, i as int, e, childv.wallet, Tracker::Gaap);
            }
        }
        child_id
    }

    /// An equal split conserves each lot's consumed quantity, so the
    /// per-acquisition matching equation survives for both the parent
    /// (its matches stay with it) and the child (it has none).
    proof fn lemma_acq_mc_after_equal_split(
        pre: LedgerView,
        post: LedgerView,
        i: int,
        e: int,
        child_wallet: Seq<char>,
        t2: Tracker,
    )
        requires
            pre.wf(),
            pre.acq_matches_consistent(t2),
            0 <= i < pre.acquisitions.len(),
            pre.next_acquisition_id >= 0,
            post.acquisitions == pre.acquisitions.update(
                i,
                crate::model::split_parent(pre.acquisitions[i], e, e, e),
            ).push(
                crate::model::split_child(
                    pre.acquisitions[i],
                    pre.next_acquisition_id,
                    e,
                    e,
                    e,
                    child_wallet,
                ),
            ),
            post.acquisition_dispositions == pre.acquisition_dispositions,
            post.next_acquisition_id == pre.next_acquisition_id + 1,
        ensures
            post.acq_matches_consistent(t2),
    {
        let lot = pre.acquisitions[i];
        let parent = crate::model::split_parent(lot, e, e, e);
        let child = crate::model::split_child(
            lot,
            pre.next_acquisition_id,
            e,
            e,
            e,
            child_wallet,
        );
        assert forall|j: int| 0 <= j < post.acquisitions.len() implies (
        #[trigger] post.acquisitions[j]).satoshis - acq_undisposed(post.acquisitions[j], t2)
            == crate::model::matched_for_acq(
            post.acquisition_dispositions,
            post.acquisitions[j].id,
            t2,
        ) by {
            if j < pre.acquisitions.len() {
                if j == i {
                    assert(post.acquisitions[j] == parent);
                } else {
                    assert(post.acquisitions[j] == pre.acquisitions[j]);
                }
            } else {
                assert(post.acquisitions[j] == child);
                Self::lemma_no_matches_for_fresh_id(pre, child.id, t2);
            }
        }
    }
}

impl Ledger {
    /// Reassign one disposition's wallet tag; every quantity is untouched.
    pub fn set_disposition_wallet(&mut self, i: usize, wallet: String)
        requires
            old(self).inv(),
            i < old(self)@.dispositions.len(),
        ensures
            final(self).inv(),
            final(self)@.dispositions == old(self)@.dispositions.update(
                i as int,
                crate::model::disp_with_wallet(old(self)@.dispositions[i as int], wallet@),
            ),
            final(self)@.acquisitions == old(self)@.acquisitions,
            final(self)@.acquisition_dispositions == old(self)@.acquisition_dispositions,
            final(self)@.next_acquisition_id == old(self)@.next_acquisition_id,
            final(self)@.next_disposition_id == old(self)@.next_disposition_id,
            old(self)@.acq_matches_consistent(Tracker::Tax) ==> final(self)@.acq_matches_consistent(
                Tracker::Tax,
            ),
            old(self)@.acq_matches_consistent(Tracker::Gaap) ==> final(self)@.acq_matches_consistent(Tracker::Gaap),
    {
        let mut d = self.dispositions[i].clone();
        d.wallet = wallet;
        let ghost pre = self@;
        let ghost dv = d@;
        self.dispositions[i] = d;
        proof {
            assert(self@.dispositions =~= pre.dispositions.update(i as int, dv));
            assert(dv =~= crate::model::disp_with_wallet(pre.dispositions[i as int], wallet@));
            assert forall|j: int| 0 <= j < self@.dispositions.len() implies disp_wf(
                #[trigger] self@.dispositions[j],
            ) && 0 <= self@.dispositions[j].id < self@.next_disposition_id
                && self@.dispositions[j].id == pre.dispositions[j].id && disp_undisposed(
                self@.dispositions[j],
                Tracker::Tax,
            ) == disp_undisposed(pre.dispositions[j], Tracker::Tax) && disp_undisposed(
                self@.dispositions[j],
                Tracker::Gaap,
            ) == disp_undisposed(pre.dispositions[j], Tracker::Gaap)
                && self@.dispositions[j].satoshis == pre.dispositions[j].satoshis by {
                if j != i {
                    assert(self@.dispositions[j] == pre.dispositions[j]);
                }
            }
        }
    }
}

} // verus!
