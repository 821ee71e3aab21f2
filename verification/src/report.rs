//! Read-only queries for the reporting collaborator, and the single
//! mutation point exposed to the valuation collaborator: updating the fair
//! value carried by acquisition lots.
use vstd::prelude::*;

verus! {

use crate::model::{
    acq_wf,
    AcquisitionView,
    Term,
    Tracker,
    MAX_PRICE_CENTS,
    MAX_TIMESTAMP,
};
use crate::store::Ledger;
use crate::sums::lemma_sum_map_update;

impl Ledger {
    /// Mark holdings to market: set the fair value of every lot acquired by
    /// `as_of` that still has GAAP-undisposed quantity.  No other field of
    /// any row changes.
    pub fn mark_to_market(&mut self, fair_value_cents: i64, as_of: i64)
        requires
            old(self).inv(),
            0 <= fair_value_cents <= MAX_PRICE_CENTS,
        ensures
            final(self).inv(),
            final(self)@.acquisitions.len() == old(self)@.acquisitions.len(),
            forall|j: int|
                0 <= j < old(self)@.acquisitions.len() ==> (#[trigger] final(self)@.acquisitions[j])
                    == (if old(self)@.acquisitions[j].acquisition_date <= as_of && old(self)@.acquisitions[j].undisposed_satoshis > 0 {
                    AcquisitionView {
                        usd_cents_btc_fair_value: fair_value_cents as int,
                        ..old(self)@.acquisitions[j]
                    }
                } else {
                    old(self)@.acquisitions[j]
                }),
            final(self)@.dispositions == old(self)@.dispositions,
            final(self)@.acquisition_dispositions == old(self)@.acquisition_dispositions,
            final(self)@.next_acquisition_id == old(self)@.next_acquisition_id,
            final(self)@.next_disposition_id == old(self)@.next_disposition_id,
            old(self)@.acq_matches_consistent(Tracker::Tax) ==> final(self)@.acq_matches_consistent(
                Tracker::Tax,
            ),
            old(self)@.acq_matches_consistent(Tracker::Gaap) ==> final(self)@.acq_matches_consistent(Tracker::Gaap),
    {
        let ghost pre = self@;
        let mut i: usize = 0;
        while i < self.acquisitions.len()
            invariant
                pre == old(self)@,
                self.inv(),
                0 <= i <= self@.acquisitions.len(),
                self@.acquisitions.len() == pre.acquisitions.len(),
                self@.acquisitions.len() == self.acquisitions.len(),
                0 <= fair_value_cents <= MAX_PRICE_CENTS,
                forall|j: int|
                    0 <= j < i ==> (#[trigger] self@.acquisitions[j]) == (if pre.acquisitions[j].acquisition_date <= as_of && pre.acquisitions[j].undisposed_satoshis > 0 {
                        AcquisitionView {
                            usd_cents_btc_fair_value: fair_value_cents as int,
                            ..pre.acquisitions[j]
                        }
                    } else {
                        pre.acquisitions[j]
                    }),
                forall|j: int|
                    i <= j < self@.acquisitions.len() ==> (#[trigger] self@.acquisitions[j])
                        == pre.acquisitions[j],
                self@.dispositions == pre.dispositions,
                self@.acquisition_dispositions == pre.acquisition_dispositions,
                self@.next_acquisition_id == pre.next_acquisition_id,
                self@.next_disposition_id == pre.next_disposition_id,
                pre.acq_matches_consistent(Tracker::Tax) ==> self@.acq_matches_consistent(
                    Tracker::Tax,
                ),
                pre.acq_matches_consistent(Tracker::Gaap) ==> self@.acq_matches_consistent(
                    Tracker::Gaap,
                ),
            decreases self.acquisitions.len() - i,
        {
            let ghost st = self@;
            if self.acquisitions[i].acquisition_date <= as_of
                && self.acquisitions[i].undisposed_satoshis > 0 {
                let mut lot = self.acquisitions[i].clone();
                lot.usd_cents_btc_fair_value = fair_value_cents;
                let ghost lotv = lot@;
                self.acquisitions[i] = lot;
                proof {
                    assert(self@.acquisitions =~= st.acquisitions.update(i as int, lotv));
                    assert(st.acquisitions[i as int] == pre.acquisitions[i as int]);
                    assert(lotv.usd_cents_btc_fair_value == fair_value_cents as int);
                    assert(lotv =~= (AcquisitionView {
                        usd_cents_btc_fair_value: fair_value_cents as int,
                        ..st.acquisitions[i as int]
                    }));
                    Self::lemma_fair_value_update(st, self@, i as int, fair_value_cents as int);
                }
            }
            i = i + 1;
        }
    }

    /// Updating one lot's fair value preserves every standing invariant:
    /// no quantity, identity or date changes.
    proof fn lemma_fair_value_update(
        st: crate::model::LedgerView,
        post: crate::model::LedgerView,
        i: int,
        price: int,
    )
        requires
            st.wf(),
            0 <= i < st.acquisitions.len(),
            0 <= price <= MAX_PRICE_CENTS,
            post.acquisitions == st.acquisitions.update(
                i,
                (AcquisitionView { usd_cents_btc_fair_value: price, ..st.acquisitions[i] }),
            ),
            post.dispositions == st.dispositions,
            post.acquisition_dispositions == st.acquisition_dispositions,
            post.next_acquisition_id == st.next_acquisition_id,
            post.next_disposition_id == st.next_disposition_id,
        ensures
            post.wf(),
            st.disp_matches_consistent(Tracker::Tax) ==> post.disp_matches_consistent(
                Tracker::Tax,
            ),
            st.disp_matches_consistent(Tracker::Gaap) ==> post.disp_matches_consistent(
                Tracker::Gaap,
            ),
            st.globally_consistent(Tracker::Tax) ==> post.globally_consistent(Tracker::Tax),
            st.globally_consistent(Tracker::Gaap) ==> post.globally_consistent(Tracker::Gaap),
            st.acq_matches_consistent(Tracker::Tax) ==> post.acq_matches_consistent(Tracker::Tax),
            st.acq_matches_consistent(Tracker::Gaap) ==> post.acq_matches_consistent(
                Tracker::Gaap,
            ),
    {
        let na = AcquisitionView { usd_cents_btc_fair_value: price, ..st.acquisitions[i] };
        assert forall|j: int| 0 <= j < post.acquisitions.len() implies acq_wf(
            #[trigger] post.acquisitions[j],
        ) && 0 <= post.acquisitions[j].id < post.next_acquisition_id
            && post.acquisitions[j].id == st.acquisitions[j].id && post.acquisitions[j].satoshis
            == st.acquisitions[j].satoshis && post.acquisitions[j].undisposed_satoshis
            == st.acquisitions[j].undisposed_satoshis
            && post.acquisitions[j].tax_undisposed_satoshis
            == st.acquisitions[j].tax_undisposed_satoshis by {
            if j != i {
                assert(post.acquisitions[j] == st.acquisitions[j]);
            }
        }
        lemma_sum_map_update(st.acquisitions, |a: AcquisitionView| a.satoshis, i, na);
        lemma_sum_map_update(
            st.acquisitions,
            |a: AcquisitionView| crate::model::acq_undisposed(a, Tracker::Tax),
            i,
            na,
        );
        lemma_sum_map_update(
            st.acquisitions,
            |a: AcquisitionView| crate::model::acq_undisposed(a, Tracker::Gaap),
            i,
            na,
        );
    }

    /// Impair holdings: write the fair value of every lot acquired by
    /// `as_of` whose carried fair value exceeds `impairment_cents` down to
    /// that price.  Values below the impairment price are kept.
    pub fn impair_holdings(&mut self, impairment_cents: i64, as_of: i64)
        requires
            old(self).inv(),
            0 <= impairment_cents <= MAX_PRICE_CENTS,
        ensures
            final(self).inv(),
            final(self)@.acquisitions.len() == old(self)@.acquisitions.len(),
            forall|j: int|
                0 <= j < old(self)@.acquisitions.len() ==> (#[trigger] final(self)@.acquisitions[j])
                    == (if old(self)@.acquisitions[j].acquisition_date <= as_of && old(self)@.acquisitions[j].usd_cents_btc_fair_value > impairment_cents {
                    AcquisitionView {
                        usd_cents_btc_fair_value: impairment_cents as int,
                        ..old(self)@.acquisitions[j]
                    }
                } else {
                    old(self)@.acquisitions[j]
                }),
            final(self)@.dispositions == old(self)@.dispositions,
            final(self)@.acquisition_dispositions == old(self)@.acquisition_dispositions,
            old(self)@.acq_matches_consistent(Tracker::Tax) ==> final(self)@.acq_matches_consistent(
                Tracker::Tax,
            ),
            old(self)@.acq_matches_consistent(Tracker::Gaap) ==> final(self)@.acq_matches_consistent(Tracker::Gaap),
    {
        let ghost pre = self@;
        let mut i: usize = 0;
        while i < self.acquisitions.len()
            invariant
                pre == old(self)@,
                self.inv(),
                0 <= i <= self@.acquisitions.len(),
                self@.acquisitions.len() == pre.acquisitions.len(),
                self@.acquisitions.len() == self.acquisitions.len(),
                0 <= impairment_cents <= MAX_PRICE_CENTS,
                forall|j: int|
                    0 <= j < i ==> (#[trigger] self@.acquisitions[j]) == (if pre.acquisitions[j].acquisition_date <= as_of && pre.acquisitions[j].usd_cents_btc_fair_value > impairment_cents {
                        AcquisitionView {
                            usd_cents_btc_fair_value: impairment_cents as int,
                            ..pre.acquisitions[j]
                        }
                    } else {
                        pre.acquisitions[j]
                    }),
                forall|j: int|
                    i <= j < self@.acquisitions.len() ==> (#[trigger] self@.acquisitions[j])
                        == pre.acquisitions[j],
                self@.dispositions == pre.dispositions,
                self@.acquisition_dispositions == pre.acquisition_dispositions,
                self@.next_acquisition_id == pre.next_acquisition_id,
                self@.next_disposition_id == pre.next_disposition_id,
                pre.acq_matches_consistent(Tracker::Tax) ==> self@.acq_matches_consistent(
                    Tracker::Tax,
                ),
                pre.acq_matches_consistent(Tracker::Gaap) ==> self@.acq_matches_consistent(
                    Tracker::Gaap,
                ),
            decreases self.acquisitions.len() - i,
        {
            let ghost st = self@;
            if self.acquisitions[i].acquisition_date <= as_of
                && self.acquisitions[i].usd_cents_btc_fair_value > impairment_cents {
                let mut lot = self.acquisitions[i].clone();
                lot.usd_cents_btc_fair_value = impairment_cents;
                let ghost lotv = lot@;
                self.acquisitions[i] = lot;
                proof {
                    assert(self@.acquisitions =~= st.acquisitions.update(i as int, lotv));
                    assert(st.acquisitions[i as int] == pre.acquisitions[i as int]);
                    assert(lotv.usd_cents_btc_fair_value == impairment_cents as int);
                    assert(lotv =~= (AcquisitionView {
                        usd_cents_btc_fair_value: impairment_cents as int,
                        ..st.acquisitions[i as int]
                    }));
                    Self::lemma_fair_value_update(st, self@, i as int, impairment_cents as int);
                }
            }
            i = i + 1;
        }
    }

    /// Indices of the lots held as of `as_of`: acquired by then, with
    /// GAAP-undisposed quantity left, in table order.
    ///
    /// The undisposed filter reads the current trackers: a lot fully
    /// disposed after `as_of` does not reappear in an earlier-dated query.
    /// Point-in-time holdings would need the match records replayed; the
    /// reporting collaborator owns that presentation choice.
    pub fn holdings(&self, as_of: i64) -> (r: Vec<usize>)
        ensures
            forall|k: int|
                0 <= k < r@.len() ==> 0 <= #[trigger] r@[k] < self@.acquisitions.len(),
            forall|k1: int, k2: int| 0 <= k1 < k2 < r@.len() ==> r@[k1] < r@[k2],
            forall|j: int|
                0 <= j < self@.acquisitions.len() ==> ((exists|k: int|
                    0 <= k < r@.len() && r@[k] == j) <==> ((#[trigger] self@.acquisitions[j]).acquisition_date <= as_of
                    && self@.acquisitions[j].undisposed_satoshis > 0)),
    {
        let mut r: Vec<usize> = Vec::new();
        let mut i: usize = 0;
        while i < self.acquisitions.len()
            invariant
                0 <= i <= self@.acquisitions.len(),
                self@.acquisitions.len() == self.acquisitions.len(),
                forall|k: int| 0 <= k < r@.len() ==> 0 <= #[trigger] r@[k] < i,
                forall|k1: int, k2: int| 0 <= k1 < k2 < r@.len() ==> r@[k1] < r@[k2],
                forall|j: int|
                    0 <= j < i ==> ((exists|k: int| 0 <= k < r@.len() && r@[k] == j) <==> ((
                    #[trigger] self@.acquisitions[j]).acquisition_date <= as_of
                        && self@.acquisitions[j].undisposed_satoshis > 0)),
            decreases self.acquisitions.len() - i,
        {
            let ghost rpre = r@;
            if self.acquisitions[i].acquisition_date <= as_of
                && self.acquisitions[i].undisposed_satoshis > 0 {
                r.push(i);
            }
            proof {
                assert forall|j: int|
                    0 <= j < i + 1 implies ((exists|k: int| 0 <= k < r@.len() && r@[k] == j) <==> ((
                #[trigger] self@.acquisitions[j]).acquisition_date <= as_of
                    && self@.acquisitions[j].undisposed_satoshis > 0)) by {
                    if j < i {
                        if exists|k: int| 0 <= k < rpre.len() && rpre[k] == j {
                            let k = choose|k: int| 0 <= k < rpre.len() && rpre[k] == j;
                            assert(r@[k] == j);
                        }
                        if exists|k: int| 0 <= k < r@.len() && r@[k] == j {
                            let k = choose|k: int| 0 <= k < r@.len() && r@[k] == j;
                            assert(k < rpre.len() && rpre[k] == j);
                        }
                    } else {
                        if self@.acquisitions[j].acquisition_date <= as_of
                            && self@.acquisitions[j].undisposed_satoshis > 0 {
                            assert(r@[r@.len() - 1] == j);
                        }
                    }
                }
            }
            i = i + 1;
        }
        r
    }

    /// Indices of the match records for one tracker and holding term whose
    /// disposition falls within `[beg, end]`, in table order.
    pub fn report(&self, beg: i64, end: i64, tracker: Tracker, term: Term) -> (r: Vec<usize>)
        requires
            self@.wf(),
        ensures
            forall|k: int|
                0 <= k < r@.len() ==> 0 <= #[trigger] r@[k]
                    < self@.acquisition_dispositions.len(),
            forall|k1: int, k2: int| 0 <= k1 < k2 < r@.len() ==> r@[k1] < r@[k2],
            forall|j: int|
                0 <= j < self@.acquisition_dispositions.len() ==> ((exists|k: int|
                    0 <= k < r@.len() && r@[k] == j) <==> ((
                #[trigger] self@.acquisition_dispositions[j]).match_type == tracker
                    && self@.acquisition_dispositions[j].term == term && (exists|di: int|
                    0 <= di < self@.dispositions.len() && (#[trigger] self@.dispositions[di]).id
                        == self@.acquisition_dispositions[j].disposition_id && beg
                        <= self@.dispositions[di].disposition_date
                        && self@.dispositions[di].disposition_date <= end))),
    {
        let mut r: Vec<usize> = Vec::new();
        let mut i: usize = 0;
        while i < self.acquisition_dispositions.len()
            invariant
                self@.wf(),
                0 <= i <= self@.acquisition_dispositions.len(),
                self@.acquisition_dispositions.len() == self.acquisition_dispositions.len(),
                self@.dispositions.len() == self.dispositions.len(),
                forall|k: int| 0 <= k < r@.len() ==> 0 <= #[trigger] r@[k] < i,
                forall|k1: int, k2: int| 0 <= k1 < k2 < r@.len() ==> r@[k1] < r@[k2],
                forall|j: int|
                    0 <= j < i ==> ((exists|k: int| 0 <= k < r@.len() && r@[k] == j) <==> ((
                    #[trigger] self@.acquisition_dispositions[j]).match_type == tracker
                        && self@.acquisition_dispositions[j].term == term && (exists|di: int|
                        0 <= di < self@.dispositions.len() && (
                        #[trigger] self@.dispositions[di]).id
                            == self@.acquisition_dispositions[j].disposition_id && beg
                            <= self@.dispositions[di].disposition_date
                            && self@.dispositions[di].disposition_date <= end))),
            decreases self.acquisition_dispositions.len() - i,
        {
            let ghost rpre = r@;
            let m_type = self.acquisition_dispositions[i].match_type;
            let m_term = self.acquisition_dispositions[i].term;
            let m_disp = self.acquisition_dispositions[i].disposition_id;
            let mut selected = false;
            if m_type == tracker && m_term == term {
                let mut d: usize = 0;
                while d < self.dispositions.len()
                    invariant
                        0 <= d <= self@.dispositions.len(),
                        self@.dispositions.len() == self.dispositions.len(),
                        m_disp == self@.acquisition_dispositions[i as int].disposition_id,
                        0 <= i < self@.acquisition_dispositions.len(),
                        self@.acquisition_dispositions.len()
                            == self.acquisition_dispositions.len(),
                        selected <==> (exists|di: int|
                            0 <= di < d && (#[trigger] self@.dispositions[di]).id == m_disp && beg
                                <= self@.dispositions[di].disposition_date
                                && self@.dispositions[di].disposition_date <= end),
                    decreases self.dispositions.len() - d,
                {
                    let ghost was = selected;
                    let hit = self.dispositions[d].id == m_disp && beg
                        <= self.dispositions[d].disposition_date
                        && self.dispositions[d].disposition_date <= end;
                    if hit {
                        selected = true;
                    }
                    proof {
                        if hit {
                            assert(0 <= d < d + 1 && self@.dispositions[d as int].id == m_disp
                                && beg <= self@.dispositions[d as int].disposition_date
                                && self@.dispositions[d as int].disposition_date <= end);
                        } else if was {
                            let di = choose|di: int|
                                0 <= di < d && (#[trigger] self@.dispositions[di]).id == m_disp
                                    && beg <= self@.dispositions[di].disposition_date
                                    && self@.dispositions[di].disposition_date <= end;
                            assert(0 <= di < d + 1 && self@.dispositions[di].id == m_disp && beg
                                <= self@.dispositions[di].disposition_date
                                && self@.dispositions[di].disposition_date <= end);
                        }
                    }
                    d = d + 1;
                }
            }
            if selected {
                r.push(i);
            }
            proof {
                assert forall|j: int|
                    0 <= j < i + 1 implies ((exists|k: int| 0 <= k < r@.len() && r@[k] == j) <==> ((
                #[trigger] self@.acquisition_dispositions[j]).match_type == tracker
                    && self@.acquisition_dispositions[j].term == term && (exists|di: int|
                    0 <= di < self@.dispositions.len() && (#[trigger] self@.dispositions[di]).id
                        == self@.acquisition_dispositions[j].disposition_id && beg
                        <= self@.dispositions[di].disposition_date
                        && self@.dispositions[di].disposition_date <= end))) by {
                    if j < i {
                        if exists|k: int| 0 <= k < rpre.len() && rpre[k] == j {
                            let k = choose|k: int| 0 <= k < rpre.len() && rpre[k] == j;
                            assert(r@[k] == j);
                        }
                        if exists|k: int| 0 <= k < r@.len() && r@[k] == j {
                            let k = choose|k: int| 0 <= k < r@.len() && r@[k] == j;
                            assert(k < rpre.len() && rpre[k] == j);
                        }
                    } else {
                        if selected {
                            assert(r@[r@.len() - 1] == j);
                        }
                    }
                }
            }
            i = i + 1;
        }
        r
    }
}

} // verus!
