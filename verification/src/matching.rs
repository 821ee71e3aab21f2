//! The FIFO matching engine: consumes unmatched dispositions against
//! unmatched acquisitions, independently per tracker, producing match
//! records and mutating the trackers.
//!
//! Each disposition is driven to completion: while unmatched quantity
//! remains, the earliest acquisition lot in scope is consumed.  Running out
//! of lots, or popping a lot that postdates the disposition, is
//! operation-fatal; the caller owns atomicity and discards the mutated
//! working state.
use vstd::prelude::*;

verus! {

use crate::errors::LedgerError;
use crate::model::{
    LedgerView,
    acq_key_lt,
    acq_undisposed,
    acq_wf,
    disp_undisposed,
    eligible,
    in_scope,
    term_of,
    tracker_price,
    AcquisitionView,
    DispositionView,
    MatchView,
    Scope,
    Term,
    Tracker,
    MAX_BASIS_CENTS,
    MAX_PRICE_CENTS,
    MAX_SATOSHIS,
    SATOSHIS_PER_BTC,
};
use crate::rounding::{
    lemma_rounded_div_monotonic,
    lemma_rounded_div_upper,
    rounded_div,
    rounding_div,
};
use crate::store::Ledger;
use crate::sums::{lemma_sum_map_bound, lemma_sum_map_update, sum_map};

/// Tracker quantity available to a disposition from lots that are in scope
/// and do not postdate it.
pub open spec fn predating_supply(
    acqs: Seq<AcquisitionView>,
    d: DispositionView,
    t: Tracker,
    scope: Scope,
) -> int {
    sum_map(
        acqs,
        |a: AcquisitionView|
            if in_scope(a, scope, d.wallet) && a.acquisition_date <= d.disposition_date {
                acq_undisposed(a, t)
            } else {
                0
            },
    )
}

/// Whether some lot in scope with tracker quantity left postdates the
/// disposition.  Such lots are never consumed on the disposition's behalf;
/// popping one fails the operation.
pub open spec fn exists_postdating_eligible(
    acqs: Seq<AcquisitionView>,
    d: DispositionView,
    t: Tracker,
    scope: Scope,
) -> bool {
    exists|j: int|
        0 <= j < acqs.len() && eligible(#[trigger] acqs[j], t, scope, d.wallet)
            && acqs[j].acquisition_date > d.disposition_date
}

/// A matching pass only moves tracker-`t` quantities toward zero: every
/// other field of every lot, and the other tracker, are untouched.
pub open spec fn acq_frame_t(
    pre: Seq<AcquisitionView>,
    post: Seq<AcquisitionView>,
    t: Tracker,
) -> bool {
    &&& post.len() == pre.len()
    &&& forall|j: int|
        0 <= j < pre.len() ==> (#[trigger] post[j]) == crate::model::acq_with_undisposed(
            pre[j],
            t,
            acq_undisposed(post[j], t),
        ) && 0 <= acq_undisposed(post[j], t) <= acq_undisposed(pre[j], t)
}

/// Two matching passes only move the two trackers toward zero: identity,
/// timestamp, quantity, prices and wallet of every lot are untouched.
pub open spec fn acq_frame_both(pre: Seq<AcquisitionView>, post: Seq<AcquisitionView>) -> bool {
    &&& post.len() == pre.len()
    &&& forall|j: int|
        0 <= j < pre.len() ==> (#[trigger] post[j]).id == pre[j].id && post[j].acquisition_date
            == pre[j].acquisition_date && post[j].satoshis == pre[j].satoshis
            && post[j].usd_cents_btc_basis == pre[j].usd_cents_btc_basis
            && post[j].usd_cents_btc_fair_value == pre[j].usd_cents_btc_fair_value
            && post[j].wallet == pre[j].wallet && 0 <= post[j].tax_undisposed_satoshis
            <= pre[j].tax_undisposed_satoshis && 0 <= post[j].undisposed_satoshis
            <= pre[j].undisposed_satoshis
}

/// FIFO exhaustion: within one scope class, whenever a later-keyed lot has
/// been consumed from at all, every earlier-keyed lot is fully exhausted.
pub open spec fn fifo_consumed(
    pre: Seq<AcquisitionView>,
    post: Seq<AcquisitionView>,
    t: Tracker,
    scope: Scope,
    wallet: Seq<char>,
) -> bool {
    forall|i: int, j: int|
        #![trigger pre[i], pre[j]]
        0 <= i < pre.len() && 0 <= j < pre.len() && in_scope(pre[i], scope, wallet) && in_scope(
            pre[j],
            scope,
            wallet,
        ) && acq_key_lt(pre[i], pre[j]) && acq_undisposed(post[j], t) < acq_undisposed(pre[j], t)
            ==> acq_undisposed(post[i], t) == 0
}

/// The acquisition lot `a` justifies the match record `m` for disposition
/// `d`: the lot is in scope, does not postdate the disposition, and basis,
/// realized gain/loss and holding term are computed from it as specified.
pub open spec fn justifies(
    a: AcquisitionView,
    m: MatchView,
    d: DispositionView,
    t: Tracker,
    scope: Scope,
) -> bool {
    &&& a.id == m.acquisition_id
    &&& in_scope(a, scope, d.wallet)
    &&& a.acquisition_date <= d.disposition_date
    &&& m.basis == rounded_div(m.satoshis * tracker_price(a, t), SATOSHIS_PER_BTC as int)
    &&& m.rgl == rounded_div(m.satoshis * d.usd_cents_btc_basis, SATOSHIS_PER_BTC as int)
        - m.basis
    &&& m.term == term_of(a.acquisition_date, d.disposition_date)
}

/// Whether disposition `d2` draws from the same scope class as `d`: the
/// same wallet under wallet scope, everything under universal scope.
pub open spec fn same_class(d2: DispositionView, d: DispositionView, scope: Scope) -> bool {
    scope is Universal || d2.wallet == d.wallet
}

/// Non-strict FIFO order on dispositions: timestamp, identity tie-break.
pub open spec fn disp_key_le(a: DispositionView, b: DispositionView) -> bool {
    a.disposition_date < b.disposition_date || (a.disposition_date == b.disposition_date && a.id
        <= b.id)
}

/// The unmatched tracker demand of `d`'s scope class up to and including
/// `d` itself, in FIFO order.
pub open spec fn class_demand_through(
    disps: Seq<DispositionView>,
    d: DispositionView,
    t: Tracker,
    scope: Scope,
) -> int {
    sum_map(
        disps,
        |d2: DispositionView|
            if same_class(d2, d, scope) && disp_key_le(d2, d) {
                -disp_undisposed(d2, t)
            } else {
                0
            },
    )
}

/// When a whole matching pass is owed success: for every disposition with
/// unmatched quantity, the cumulative demand of its scope class up to it is
/// covered by the lots in scope that do not postdate it.  FIFO consumption
/// in timestamp order succeeds exactly under this condition.
pub open spec fn pass_feasible(l: LedgerView, t: Tracker, scope: Scope) -> bool {
    forall|i: int|
        0 <= i < l.dispositions.len() && disp_undisposed(#[trigger] l.dispositions[i], t) != 0
            ==> class_demand_through(l.dispositions, l.dispositions[i], t, scope)
            <= predating_supply(l.acquisitions, l.dispositions[i], t, scope)
}

/// A match record written on behalf of disposition `d` under tracker `t` is
/// fully accounted for by some acquisition lot.
pub open spec fn match_justified(
    m: MatchView,
    acqs: Seq<AcquisitionView>,
    d: DispositionView,
    t: Tracker,
    scope: Scope,
) -> bool {
    &&& m.disposition_id == d.id
    &&& m.match_type == t
    &&& 0 < m.satoshis <= -d.satoshis
    &&& exists|j: int| 0 <= j < acqs.len() && justifies(#[trigger] acqs[j], m, d, t, scope)
}

impl Ledger {
    /// Run one disposition to completion under tracker `t`: repeatedly pop
    /// the earliest acquisition lot in scope and match against it until the
    /// disposition's unmatched quantity reaches zero.
    ///
    /// Succeeds exactly when the lots in scope that do not postdate the
    /// disposition carry enough tracker quantity; otherwise the error says
    /// whether a postdating lot was reached or the scope ran dry.  On
    /// failure the partial mutation is visible here; the caller discards it.
    #[verifier::rlimit(100)]
    pub fn match_one_disposition(&mut self, di: usize, t: Tracker, scope: Scope) -> (r: Result<
        (),
        LedgerError,
    >)
        requires
            old(self).inv(),
            di < old(self)@.dispositions.len(),
        ensures
            final(self).inv(),
            final(self)@.next_acquisition_id == old(self)@.next_acquisition_id,
            final(self)@.next_disposition_id == old(self)@.next_disposition_id,
            acq_frame_t(old(self)@.acquisitions, final(self)@.acquisitions, t),
            final(self)@.dispositions.len() == old(self)@.dispositions.len(),
            forall|j: int|
                0 <= j < old(self)@.dispositions.len() && j != di ==> final(self)@.dispositions[j]
                    == old(self)@.dispositions[j],
            final(self)@.dispositions[di as int] == crate::model::disp_with_undisposed(
                old(self)@.dispositions[di as int],
                t,
                disp_undisposed(final(self)@.dispositions[di as int], t),
            ),
            disp_undisposed(old(self)@.dispositions[di as int], t) <= disp_undisposed(
                final(self)@.dispositions[di as int],
                t,
            ) <= 0,
            old(self)@.acquisition_dispositions.len() <= final(self)@.acquisition_dispositions.len(),
            final(self)@.acquisition_dispositions.take(
                old(self)@.acquisition_dispositions.len() as int,
            ) == old(self)@.acquisition_dispositions,
            forall|k: int|
                old(self)@.acquisition_dispositions.len() <= k < final(self)@.acquisition_dispositions.len() ==> match_justified(
                    #[trigger] final(self)@.acquisition_dispositions[k],
                    final(self)@.acquisitions,
                    old(self)@.dispositions[di as int],
                    t,
                    scope,
                ),
            fifo_consumed(
                old(self)@.acquisitions,
                final(self)@.acquisitions,
                t,
                scope,
                old(self)@.dispositions[di as int].wallet,
            ),
            forall|j: int|
                0 <= j < old(self)@.acquisitions.len() && !in_scope(
                    #[trigger] old(self)@.acquisitions[j],
                    scope,
                    old(self)@.dispositions[di as int].wallet,
                ) ==> final(self)@.acquisitions[j] == old(self)@.acquisitions[j],
            old(self)@.acq_matches_consistent(Tracker::Tax) ==> final(self)@.acq_matches_consistent(
                Tracker::Tax,
            ),
            old(self)@.acq_matches_consistent(Tracker::Gaap) ==> final(self)@.acq_matches_consistent(Tracker::Gaap),
            r is Ok <==> predating_supply(old(self)@.acquisitions, old(self)@.dispositions[di as int], t, scope)
                >= -disp_undisposed(old(self)@.dispositions[di as int], t),
            r is Ok ==> disp_undisposed(final(self)@.dispositions[di as int], t) == 0,
            (r matches Err(LedgerError::DispositionPredatesAcquisition { .. })) ==> exists_postdating_eligible(
                old(self)@.acquisitions,
                old(self)@.dispositions[di as int],
                t,
                scope,
            ),
            (r matches Err(LedgerError::NoAcquisitionLotsAvailable { .. }))
                ==> !exists_postdating_eligible(
                old(self)@.acquisitions,
                old(self)@.dispositions[di as int],
                t,
                scope,
            ),
            r is Err ==> (r matches Err(LedgerError::DispositionPredatesAcquisition { .. })) || (
            r matches Err(LedgerError::NoAcquisitionLotsAvailable { .. })),
            forall|j: int|
                0 <= j < old(self)@.acquisitions.len() && old(self)@.acquisitions[j].acquisition_date
                    > old(self)@.dispositions[di as int].disposition_date ==> acq_undisposed(
                    #[trigger] final(self)@.acquisitions[j],
                    t,
                ) == acq_undisposed(old(self)@.acquisitions[j], t),
            predating_supply(final(self)@.acquisitions, old(self)@.dispositions[di as int], t, scope)
                == predating_supply(old(self)@.acquisitions, old(self)@.dispositions[di as int], t, scope)
                - (disp_undisposed(final(self)@.dispositions[di as int], t) - disp_undisposed(
                old(self)@.dispositions[di as int],
                t,
            )),
    {
        let ghost pre = self@;
        let ghost dv = pre.dispositions[di as int];
        let ghost supply_f = |a: AcquisitionView|
            if in_scope(a, scope, dv.wallet) && a.acquisition_date <= dv.disposition_date {
                acq_undisposed(a, t)
            } else {
                0
            };
        let mut remaining: i64 = match t {
            Tracker::Tax => -self.dispositions[di].tax_undisposed_satoshis,
            Tracker::Gaap => -self.dispositions[di].undisposed_satoshis,
        };
        let ghost m0 = remaining as int;
        proof {
            assert(disp_undisposed(pre.dispositions[di as int], t) == -m0);
            assert(self@.dispositions[di as int] == crate::model::disp_with_undisposed(
                dv,
                t,
                disp_undisposed(self@.dispositions[di as int], t),
            ));
        }
        while remaining > 0
            invariant
                pre == old(self)@,
                self.inv(),
                0 <= di < self@.dispositions.len(),
                self@.dispositions.len() == pre.dispositions.len(),
                self@.next_acquisition_id == pre.next_acquisition_id,
                self@.next_disposition_id == pre.next_disposition_id,
                0 <= remaining <= m0,
                m0 <= MAX_SATOSHIS,
                dv == pre.dispositions[di as int],
                disp_undisposed(dv, t) == -m0,
                acq_frame_t(pre.acquisitions, self@.acquisitions, t),
                forall|j: int|
                    0 <= j < pre.dispositions.len() && j != di ==> self@.dispositions[j]
                        == pre.dispositions[j],
                self@.dispositions[di as int] == crate::model::disp_with_undisposed(
                    dv,
                    t,
                    disp_undisposed(self@.dispositions[di as int], t),
                ),
                disp_undisposed(self@.dispositions[di as int], t) == -remaining,
                supply_f == (|a: AcquisitionView|
                    if in_scope(a, scope, dv.wallet) && a.acquisition_date <= dv.disposition_date {
                        acq_undisposed(a, t)
                    } else {
                        0
                    }),
                sum_map(self@.acquisitions, supply_f) == sum_map(pre.acquisitions, supply_f) - (m0
                    - remaining),
                forall|j: int|
                    0 <= j < pre.acquisitions.len() && pre.acquisitions[j].acquisition_date
                        > dv.disposition_date ==> acq_undisposed(
                        #[trigger] self@.acquisitions[j],
                        t,
                    ) == acq_undisposed(pre.acquisitions[j], t),
                pre.acquisition_dispositions.len() <= self@.acquisition_dispositions.len(),
                self@.acquisition_dispositions.take(pre.acquisition_dispositions.len() as int)
                    == pre.acquisition_dispositions,
                forall|k: int|
                    pre.acquisition_dispositions.len() <= k
                        < self@.acquisition_dispositions.len() ==> match_justified(
                        #[trigger] self@.acquisition_dispositions[k],
                        self@.acquisitions,
                        dv,
                        t,
                        scope,
                    ),
                fifo_consumed(pre.acquisitions, self@.acquisitions, t, scope, dv.wallet),
                forall|j: int|
                    0 <= j < pre.acquisitions.len() && !in_scope(
                        #[trigger] pre.acquisitions[j],
                        scope,
                        dv.wallet,
                    ) ==> self@.acquisitions[j] == pre.acquisitions[j],
                pre.acq_matches_consistent(Tracker::Tax) ==> self@.acq_matches_consistent(
                    Tracker::Tax,
                ),
                pre.acq_matches_consistent(Tracker::Gaap) ==> self@.acq_matches_consistent(
                    Tracker::Gaap,
                ),
            decreases remaining,
        {
            let found = self.find_earliest_eligible(t, scope, &self.dispositions[di].wallet, None);
            match found {
                None => {
                    proof {
                        assert forall|k: int|
                            0 <= k < self@.acquisitions.len() implies #[trigger] supply_f(
                            self@.acquisitions[k],
                        ) == 0 by {
                            assert(!eligible(self@.acquisitions[k], t, scope, dv.wallet));
                            assert(acq_wf(self@.acquisitions[k]));
                        }
                        lemma_sum_map_bound(self@.acquisitions, supply_f, 0, 0);
                        assert(!exists_postdating_eligible(self@.acquisitions, dv, t, scope));
                        assert forall|j: int|
                            0 <= j < pre.acquisitions.len() && eligible(
                                #[trigger] pre.acquisitions[j],
                                t,
                                scope,
                                dv.wallet,
                            ) implies !(pre.acquisitions[j].acquisition_date
                            > dv.disposition_date) by {
                            assert(acq_undisposed(self@.acquisitions[j], t) == acq_undisposed(
                                pre.acquisitions[j],
                                t,
                            ) || acq_undisposed(self@.acquisitions[j], t) < acq_undisposed(
                                pre.acquisitions[j],
                                t,
                            ));
                            if pre.acquisitions[j].acquisition_date > dv.disposition_date {
                                assert(acq_undisposed(self@.acquisitions[j], t) > 0);
                                assert(in_scope(self@.acquisitions[j], scope, dv.wallet));
                                assert(eligible(self@.acquisitions[j], t, scope, dv.wallet));
                            }
                        }
                    }
                    return Err(
                        LedgerError::NoAcquisitionLotsAvailable {
                            disposition_id: self.dispositions[di].id,
                            tracker: t,
                            remaining_satoshis: remaining,
                        },
                    );
                },
                Some(ai) => {
                    let acq_date = self.acquisitions[ai].acquisition_date;
                    let disp_date = self.dispositions[di].disposition_date;
                    if acq_date > disp_date {
                        proof {
                            assert(eligible(self@.acquisitions[ai as int], t, scope, dv.wallet));
                            assert(exists_postdating_eligible(self@.acquisitions, dv, t, scope));
                            assert forall|k: int|
                                0 <= k < self@.acquisitions.len() implies #[trigger] supply_f(
                                self@.acquisitions[k],
                            ) == 0 by {
                                assert(acq_wf(self@.acquisitions[k]));
                                if eligible(self@.acquisitions[k], t, scope, dv.wallet)
                                    && self@.acquisitions[k].acquisition_date
                                    <= dv.disposition_date {
                                    assert(acq_key_lt(
                                        self@.acquisitions[k],
                                        self@.acquisitions[ai as int],
                                    ));
                                }
                            }
                            lemma_sum_map_bound(self@.acquisitions, supply_f, 0, 0);
                            let wit = choose|j: int|
                                0 <= j < self@.acquisitions.len() && eligible(
                                    #[trigger] self@.acquisitions[j],
                                    t,
                                    scope,
                                    dv.wallet,
                                ) && self@.acquisitions[j].acquisition_date
                                    > dv.disposition_date;
                            assert(eligible(pre.acquisitions[wit], t, scope, dv.wallet));
                            assert(exists_postdating_eligible(pre.acquisitions, dv, t, scope));
                        }
                        return Err(
                            LedgerError::DispositionPredatesAcquisition {
                                acquisition_id: self.acquisitions[ai].id,
                                disposition_id: self.dispositions[di].id,
                            },
                        );
                    }
                    let lot_undisposed = match t {
                        Tracker::Tax => self.acquisitions[ai].tax_undisposed_satoshis,
                        Tracker::Gaap => self.acquisitions[ai].undisposed_satoshis,
                    };
                    let quantity = if remaining <= lot_undisposed {
                        remaining
                    } else {
                        lot_undisposed
                    };
                    let price = match t {
                        Tracker::Tax => self.acquisitions[ai].usd_cents_btc_basis,
                        Tracker::Gaap => self.acquisitions[ai].usd_cents_btc_fair_value,
                    };
                    let disposal_price = self.dispositions[di].usd_cents_btc_basis;
                    proof {
                        assert(acq_wf(self@.acquisitions[ai as int]));
                        Self::lemma_value_bounds(quantity as int, price as int);
                        Self::lemma_value_bounds(quantity as int, disposal_price as int);
                    }
                    let basis = rounding_div(
                        (quantity as i128) * (price as i128),
                        SATOSHIS_PER_BTC as i128,
                    ) as i64;
                    let disposal_value = rounding_div(
                        (quantity as i128) * (disposal_price as i128),
                        SATOSHIS_PER_BTC as i128,
                    ) as i64;
                    let rgl = disposal_value - basis;
                    let term = if disp_date - acq_date >= crate::model::LONG_TERM_SECONDS {
                        Term::Long
                    } else {
                        Term::Short
                    };
                    let ghost st = self@;
                    let ghost lot = st.acquisitions[ai as int];
                    self.apply_match(ai, di, t, quantity, basis, rgl, term);
                    proof {
                        let na = crate::model::acq_with_undisposed(
                            lot,
                            t,
                            acq_undisposed(lot, t) - quantity,
                        );
                        assert(supply_f(na) == supply_f(lot) - quantity);
                        lemma_sum_map_update(st.acquisitions, supply_f, ai as int, na);
                        let rec = MatchView {
                            acquisition_id: lot.id,
                            disposition_id: dv.id,
                            satoshis: quantity as int,
                            basis: basis as int,
                            rgl: rgl as int,
                            term: term,
                            match_type: t,
                        };
                        assert(self@.acquisition_dispositions == st.acquisition_dispositions.push(
                            rec,
                        ));
                        assert(self@.acquisition_dispositions.take(
                            pre.acquisition_dispositions.len() as int,
                        ) =~= pre.acquisition_dispositions);
                        assert(justifies(self@.acquisitions[ai as int], rec, dv, t, scope));
                        assert forall|k: int|
                            pre.acquisition_dispositions.len() <= k
                                < self@.acquisition_dispositions.len() implies match_justified(
                            #[trigger] self@.acquisition_dispositions[k],
                            self@.acquisitions,
                            dv,
                            t,
                            scope,
                        ) by {
                            if k < st.acquisition_dispositions.len() {
                                assert(self@.acquisition_dispositions[k]
                                    == st.acquisition_dispositions[k]);
                                assert(match_justified(
                                    st.acquisition_dispositions[k],
                                    st.acquisitions,
                                    dv,
                                    t,
                                    scope,
                                ));
                                let m = st.acquisition_dispositions[k];
                                let j = choose|j: int|
                                    0 <= j < st.acquisitions.len() && justifies(
                                        #[trigger] st.acquisitions[j],
                                        m,
                                        dv,
                                        t,
                                        scope,
                                    );
                                assert(justifies(self@.acquisitions[j], m, dv, t, scope));
                            } else {
                                assert(self@.acquisition_dispositions[k] == rec);
                            }
                        }
                        assert forall|i: int, j: int|
                            #![trigger pre.acquisitions[i], pre.acquisitions[j]]
                            0 <= i < pre.acquisitions.len() && 0 <= j < pre.acquisitions.len()
                                && in_scope(pre.acquisitions[i], scope, dv.wallet) && in_scope(
                                pre.acquisitions[j],
                                scope,
                                dv.wallet,
                            ) && acq_key_lt(pre.acquisitions[i], pre.acquisitions[j])
                                && acq_undisposed(self@.acquisitions[j], t) < acq_undisposed(
                                pre.acquisitions[j],
                                t,
                            ) implies acq_undisposed(self@.acquisitions[i], t) == 0 by {
                            if j == ai {
                                if acq_undisposed(st.acquisitions[i], t) > 0 {
                                    assert(eligible(st.acquisitions[i], t, scope, dv.wallet));
                                    assert(acq_key_lt(
                                        st.acquisitions[ai as int],
                                        st.acquisitions[i],
                                    ));
                                }
                            } else {
                                assert(acq_undisposed(self@.acquisitions[j], t) == acq_undisposed(
                                    st.acquisitions[j],
                                    t,
                                ));
                            }
                        }
                    }
                    remaining = remaining - quantity;
                },
            }
        }
        proof {
            assert forall|k: int| 0 <= k < self@.acquisitions.len() implies 0 <= #[trigger] supply_f(
                self@.acquisitions[k],
            ) <= MAX_SATOSHIS as int by {
                assert(acq_wf(self@.acquisitions[k]));
            }
            lemma_sum_map_bound(self@.acquisitions, supply_f, 0, MAX_SATOSHIS as int);
        }
        Ok(())
    }

    /// A quantity-times-price product divided by the unit scale stays
    /// within the basis range.
    proof fn lemma_value_bounds(q: int, p: int)
        requires
            0 <= q <= MAX_SATOSHIS,
            0 <= p <= MAX_PRICE_CENTS,
        ensures
            0 <= q * p <= (MAX_BASIS_CENTS as int) * (SATOSHIS_PER_BTC as int),
            0 <= rounded_div(q * p, SATOSHIS_PER_BTC as int) <= MAX_BASIS_CENTS,
    {
        assert(0 <= q * p <= (MAX_BASIS_CENTS as int) * (SATOSHIS_PER_BTC as int))
            by (nonlinear_arith)
            requires
                0 <= q <= MAX_SATOSHIS,
                0 <= p <= MAX_PRICE_CENTS,
        ;
        lemma_rounded_div_monotonic(q * p, q * p, SATOSHIS_PER_BTC as int);
        lemma_rounded_div_upper(q * p, SATOSHIS_PER_BTC as int, MAX_BASIS_CENTS as int);
    }
}

/// Indices of dispositions still carrying unmatched quantity under `t`.
pub open spec fn unmatched_set(ds: Seq<DispositionView>, t: Tracker) -> Set<int> {
    Set::new(|j: int| 0 <= j < ds.len() && disp_undisposed(ds[j], t) != 0)
}

impl Ledger {
    /// One full matching pass for tracker `t`: every disposition with
    /// unmatched quantity is driven to zero, earliest first.  On success no
    /// disposition has tracker-`t` quantity left; on failure the pass stops
    /// at the offending disposition and the caller discards the state.
    pub fn run_matching_pass(&mut self, t: Tracker, scope: Scope) -> (r: Result<(), LedgerError>)
        requires
            old(self).inv(),
        ensures
            final(self).inv(),
            final(self)@.next_acquisition_id == old(self)@.next_acquisition_id,
            final(self)@.next_disposition_id == old(self)@.next_disposition_id,
            acq_frame_t(old(self)@.acquisitions, final(self)@.acquisitions, t),
            final(self)@.dispositions.len() == old(self)@.dispositions.len(),
            forall|j: int|
                0 <= j < old(self)@.dispositions.len() ==> (#[trigger] final(self)@.dispositions[j])
                    == crate::model::disp_with_undisposed(
                    old(self)@.dispositions[j],
                    t,
                    disp_undisposed(final(self)@.dispositions[j], t),
                ) && disp_undisposed(old(self)@.dispositions[j], t) <= disp_undisposed(
                    final(self)@.dispositions[j],
                    t,
                ) <= 0,
            old(self)@.acquisition_dispositions.len() <= final(self)@.acquisition_dispositions.len(),
            final(self)@.acquisition_dispositions.take(
                old(self)@.acquisition_dispositions.len() as int,
            ) == old(self)@.acquisition_dispositions,
            forall|k: int|
                old(self)@.acquisition_dispositions.len() <= k < final(self)@.acquisition_dispositions.len() ==> (exists|di: int|
                    0 <= di < final(self)@.dispositions.len() && match_justified(
                        #[trigger] final(self)@.acquisition_dispositions[k],
                        final(self)@.acquisitions,
                        final(self)@.dispositions[di],
                        t,
                        scope,
                    )),
            forall|w: Seq<char>| #[trigger]
                fifo_consumed(old(self)@.acquisitions, final(self)@.acquisitions, t, scope, w),
            old(self)@.acq_matches_consistent(Tracker::Tax) ==> final(self)@.acq_matches_consistent(
                Tracker::Tax,
            ),
            old(self)@.acq_matches_consistent(Tracker::Gaap) ==> final(self)@.acq_matches_consistent(Tracker::Gaap),
            r is Ok ==> forall|j: int|
                0 <= j < final(self)@.dispositions.len() ==> disp_undisposed(
                    #[trigger] final(self)@.dispositions[j],
                    t,
                ) == 0,
            r is Err ==> (r matches Err(LedgerError::DispositionPredatesAcquisition { .. })) || (
            r matches Err(LedgerError::NoAcquisitionLotsAvailable { .. })),
            r is Ok <==> pass_feasible(old(self)@, t, scope),
    {
        broadcast use vstd::set::group_set_axioms;

        let ghost pre = self@;
        loop
            invariant
                pre == old(self)@,
                self.inv(),
                self@.next_acquisition_id == pre.next_acquisition_id,
                self@.next_disposition_id == pre.next_disposition_id,
                acq_frame_t(pre.acquisitions, self@.acquisitions, t),
                self@.dispositions.len() == pre.dispositions.len(),
                forall|j: int|
                    0 <= j < pre.dispositions.len() ==> (#[trigger] self@.dispositions[j])
                        == crate::model::disp_with_undisposed(
                        pre.dispositions[j],
                        t,
                        disp_undisposed(self@.dispositions[j], t),
                    ) && disp_undisposed(pre.dispositions[j], t) <= disp_undisposed(
                        self@.dispositions[j],
                        t,
                    ) <= 0,
                forall|j: int|
                    0 <= j < pre.dispositions.len() ==> disp_undisposed(
                        #[trigger] self@.dispositions[j],
                        t,
                    ) == 0 || disp_undisposed(self@.dispositions[j], t) == disp_undisposed(
                        pre.dispositions[j],
                        t,
                    ),
                forall|i: int|
                    0 <= i < pre.dispositions.len() && disp_undisposed(
                        #[trigger] self@.dispositions[i],
                        t,
                    ) != 0 ==> predating_supply(self@.acquisitions, pre.dispositions[i], t, scope)
                        - predating_supply(pre.acquisitions, pre.dispositions[i], t, scope)
                        == class_demand_through(self@.dispositions, pre.dispositions[i], t, scope)
                        - class_demand_through(pre.dispositions, pre.dispositions[i], t, scope),
                forall|i: int|
                    0 <= i < pre.dispositions.len() && disp_undisposed(
                        #[trigger] pre.dispositions[i],
                        t,
                    ) != 0 && disp_undisposed(self@.dispositions[i], t) == 0
                        ==> class_demand_through(pre.dispositions, pre.dispositions[i], t, scope)
                        <= predating_supply(pre.acquisitions, pre.dispositions[i], t, scope),
                pre.acquisition_dispositions.len() <= self@.acquisition_dispositions.len(),
                self@.acquisition_dispositions.take(pre.acquisition_dispositions.len() as int)
                    == pre.acquisition_dispositions,
                forall|k: int|
                    pre.acquisition_dispositions.len() <= k
                        < self@.acquisition_dispositions.len() ==> (exists|di: int|
                        0 <= di < self@.dispositions.len() && match_justified(
                            #[trigger] self@.acquisition_dispositions[k],
                            self@.acquisitions,
                            self@.dispositions[di],
                            t,
                            scope,
                        )),
                forall|w: Seq<char>| #[trigger]
                    fifo_consumed(pre.acquisitions, self@.acquisitions, t, scope, w),
                pre.acq_matches_consistent(Tracker::Tax) ==> self@.acq_matches_consistent(
                    Tracker::Tax,
                ),
                pre.acq_matches_consistent(Tracker::Gaap) ==> self@.acq_matches_consistent(
                    Tracker::Gaap,
                ),
            decreases unmatched_set(self@.dispositions, t).len(),
        {
            let found = self.find_earliest_unmatched_disposition(t);
            match found {
                None => {
                    proof {
                        assert forall|i: int|
                            0 <= i < pre.dispositions.len() && disp_undisposed(
                                #[trigger] pre.dispositions[i],
                                t,
                            ) != 0 implies class_demand_through(
                            pre.dispositions,
                            pre.dispositions[i],
                            t,
                            scope,
                        ) <= predating_supply(pre.acquisitions, pre.dispositions[i], t, scope) by {
                            assert(disp_undisposed(self@.dispositions[i], t) == 0);
                        }
                        assert(pass_feasible(pre, t, scope));
                    }
                    return Ok(());
                },
                Some(di) => {
                    let ghost mid = self@;
                    proof {
                        vstd::set_lib::lemma_int_range(0, mid.dispositions.len() as int);
                        vstd::set_lib::lemma_len_subset(
                            unmatched_set(mid.dispositions, t),
                            vstd::set_lib::set_int_range(0, mid.dispositions.len() as int),
                        );
                    }
                    let res = self.match_one_disposition(di, t, scope);
                    proof {
                        Self::lemma_pass_step(pre, mid, self@, di as int, t, scope);
                        Self::lemma_pass_iff_step(
                            pre,
                            mid,
                            self@,
                            di as int,
                            t,
                            scope,
                            res is Ok,
                        );
                    }
                    match res {
                        Err(e) => {
                            return Err(e);
                        },
                        Ok(()) => {
                            proof {
                                assert(unmatched_set(self@.dispositions, t) =~= unmatched_set(
                                    mid.dispositions,
                                    t,
                                ).remove(di as int));
                                assert(unmatched_set(mid.dispositions, t).contains(di as int));
                            }
                        },
                    }
                },
            }
        }
    }

    /// Composes the frame, prefix, justification and FIFO facts of one
    /// `match_one_disposition` call with those accumulated since the start
    /// of the pass.
    proof fn lemma_pass_step(
        pre: LedgerView,
        mid: LedgerView,
        post: LedgerView,
        di: int,
        t: Tracker,
        scope: Scope,
    )
        requires
            0 <= di < mid.dispositions.len(),
            mid.wf(),
            post.wf(),
            // accumulated: pre -> mid
            acq_frame_t(pre.acquisitions, mid.acquisitions, t),
            mid.dispositions.len() == pre.dispositions.len(),
            forall|j: int|
                0 <= j < pre.dispositions.len() ==> (#[trigger] mid.dispositions[j])
                    == crate::model::disp_with_undisposed(
                    pre.dispositions[j],
                    t,
                    disp_undisposed(mid.dispositions[j], t),
                ) && disp_undisposed(pre.dispositions[j], t) <= disp_undisposed(
                    mid.dispositions[j],
                    t,
                ) <= 0,
            pre.acquisition_dispositions.len() <= mid.acquisition_dispositions.len(),
            mid.acquisition_dispositions.take(pre.acquisition_dispositions.len() as int)
                == pre.acquisition_dispositions,
            forall|k: int|
                pre.acquisition_dispositions.len() <= k
                    < mid.acquisition_dispositions.len() ==> (exists|dj: int|
                    0 <= dj < mid.dispositions.len() && match_justified(
                        #[trigger] mid.acquisition_dispositions[k],
                        mid.acquisitions,
                        mid.dispositions[dj],
                        t,
                        scope,
                    )),
            forall|w: Seq<char>| #[trigger]
                fifo_consumed(pre.acquisitions, mid.acquisitions, t, scope, w),
            // one step: mid -> post
            acq_frame_t(mid.acquisitions, post.acquisitions, t),
            post.dispositions.len() == mid.dispositions.len(),
            forall|j: int|
                0 <= j < mid.dispositions.len() && j != di ==> post.dispositions[j]
                    == mid.dispositions[j],
            post.dispositions[di] == crate::model::disp_with_undisposed(
                mid.dispositions[di],
                t,
                disp_undisposed(post.dispositions[di], t),
            ),
            disp_undisposed(mid.dispositions[di], t) <= disp_undisposed(post.dispositions[di], t)
                <= 0,
            mid.acquisition_dispositions.len() <= post.acquisition_dispositions.len(),
            post.acquisition_dispositions.take(mid.acquisition_dispositions.len() as int)
                == mid.acquisition_dispositions,
            forall|k: int|
                mid.acquisition_dispositions.len() <= k
                    < post.acquisition_dispositions.len() ==> match_justified(
                    #[trigger] post.acquisition_dispositions[k],
                    post.acquisitions,
                    mid.dispositions[di],
                    t,
                    scope,
                ),
            fifo_consumed(mid.acquisitions, post.acquisitions, t, scope, mid.dispositions[di].wallet),
            forall|j: int|
                0 <= j < mid.acquisitions.len() && !in_scope(
                    #[trigger] mid.acquisitions[j],
                    scope,
                    mid.dispositions[di].wallet,
                ) ==> post.acquisitions[j] == mid.acquisitions[j],
        ensures
            acq_frame_t(pre.acquisitions, post.acquisitions, t),
            forall|j: int|
                0 <= j < pre.dispositions.len() ==> (#[trigger] post.dispositions[j])
                    == crate::model::disp_with_undisposed(
                    pre.dispositions[j],
                    t,
                    disp_undisposed(post.dispositions[j], t),
                ) && disp_undisposed(pre.dispositions[j], t) <= disp_undisposed(
                    post.dispositions[j],
                    t,
                ) <= 0,
            post.acquisition_dispositions.take(pre.acquisition_dispositions.len() as int)
                == pre.acquisition_dispositions,
            forall|k: int|
                pre.acquisition_dispositions.len() <= k
                    < post.acquisition_dispositions.len() ==> (exists|dj: int|
                    0 <= dj < post.dispositions.len() && match_justified(
                        #[trigger] post.acquisition_dispositions[k],
                        post.acquisitions,
                        post.dispositions[dj],
                        t,
                        scope,
                    )),
            forall|w: Seq<char>| #[trigger]
                fifo_consumed(pre.acquisitions, post.acquisitions, t, scope, w),
    {
        assert forall|j: int| 0 <= j < pre.acquisitions.len() implies (
        #[trigger] post.acquisitions[j]) == crate::model::acq_with_undisposed(
            pre.acquisitions[j],
            t,
            acq_undisposed(post.acquisitions[j], t),
        ) && 0 <= acq_undisposed(post.acquisitions[j], t) <= acq_undisposed(
            pre.acquisitions[j],
            t,
        ) by {
            assert(post.acquisitions[j] =~= crate::model::acq_with_undisposed(
                pre.acquisitions[j],
                t,
                acq_undisposed(post.acquisitions[j], t),
            ));
        }
        assert forall|j: int| 0 <= j < pre.dispositions.len() implies (
        #[trigger] post.dispositions[j]) == crate::model::disp_with_undisposed(
            pre.dispositions[j],
            t,
            disp_undisposed(post.dispositions[j], t),
        ) && disp_undisposed(pre.dispositions[j], t) <= disp_undisposed(post.dispositions[j], t)
            <= 0 by {
            assert(post.dispositions[j] =~= crate::model::disp_with_undisposed(
                pre.dispositions[j],
                t,
                disp_undisposed(post.dispositions[j], t),
            ));
        }
        assert(post.acquisition_dispositions.take(pre.acquisition_dispositions.len() as int)
            =~= pre.acquisition_dispositions);
        assert forall|k: int|
            pre.acquisition_dispositions.len() <= k
                < post.acquisition_dispositions.len() implies (exists|dj: int|
            0 <= dj < post.dispositions.len() && match_justified(
                #[trigger] post.acquisition_dispositions[k],
                post.acquisitions,
                post.dispositions[dj],
                t,
                scope,
            )) by {
            let m = post.acquisition_dispositions[k];
            if k < mid.acquisition_dispositions.len() {
                assert(post.acquisition_dispositions[k] == mid.acquisition_dispositions[k]);
                let dj = choose|dj: int|
                    0 <= dj < mid.dispositions.len() && match_justified(
                        mid.acquisition_dispositions[k],
                        mid.acquisitions,
                        #[trigger] mid.dispositions[dj],
                        t,
                        scope,
                    );
                let aw = choose|j: int|
                    0 <= j < mid.acquisitions.len() && justifies(
                        #[trigger] mid.acquisitions[j],
                        m,
                        mid.dispositions[dj],
                        t,
                        scope,
                    );
                assert(justifies(post.acquisitions[aw], m, post.dispositions[dj], t, scope));
                assert(match_justified(m, post.acquisitions, post.dispositions[dj], t, scope));
            } else {
                let aw = choose|j: int|
                    0 <= j < post.acquisitions.len() && justifies(
                        #[trigger] post.acquisitions[j],
                        m,
                        mid.dispositions[di],
                        t,
                        scope,
                    );
                assert(justifies(post.acquisitions[aw], m, post.dispositions[di], t, scope));
                assert(match_justified(m, post.acquisitions, post.dispositions[di], t, scope));
            }
        }
        assert forall|w: Seq<char>| #[trigger]
            fifo_consumed(pre.acquisitions, post.acquisitions, t, scope, w) by {
            assert(fifo_consumed(pre.acquisitions, mid.acquisitions, t, scope, w));
            assert forall|i: int, j: int|
                #![trigger pre.acquisitions[i], pre.acquisitions[j]]
                0 <= i < pre.acquisitions.len() && 0 <= j < pre.acquisitions.len() && in_scope(
                    pre.acquisitions[i],
                    scope,
                    w,
                ) && in_scope(pre.acquisitions[j], scope, w) && acq_key_lt(
                    pre.acquisitions[i],
                    pre.acquisitions[j],
                ) && acq_undisposed(post.acquisitions[j], t) < acq_undisposed(
                    pre.acquisitions[j],
                    t,
                ) implies acq_undisposed(post.acquisitions[i], t) == 0 by {
                if acq_undisposed(mid.acquisitions[j], t) < acq_undisposed(
                    pre.acquisitions[j],
                    t,
                ) {
                    assert(acq_undisposed(mid.acquisitions[i], t) == 0);
                } else {
                    assert(acq_undisposed(post.acquisitions[j], t) < acq_undisposed(
                        mid.acquisitions[j],
                        t,
                    ));
                    if in_scope(mid.acquisitions[j], scope, mid.dispositions[di].wallet) {
                        if acq_undisposed(mid.acquisitions[i], t) > 0 {
                            assert(in_scope(
                                mid.acquisitions[i],
                                scope,
                                mid.dispositions[di].wallet,
                            ));
                            assert(acq_key_lt(mid.acquisitions[i], mid.acquisitions[j]));
                            assert(fifo_consumed(
                                mid.acquisitions,
                                post.acquisitions,
                                t,
                                scope,
                                mid.dispositions[di].wallet,
                            ));
                            assert(acq_undisposed(post.acquisitions[i], t) == 0);
                        }
                    } else {
                        assert(post.acquisitions[j] == mid.acquisitions[j]);
                    }
                }
            }
        }
    }
}

/// A validated import record: a timestamp, a signed quantity in satoshis
/// (positive acquires, negative disposes, zero rejected), a price in cents
/// per whole coin, and a wallet tag.
#[derive(Debug)]
pub struct NewRecord {
    pub date: i64,
    pub bitcoin: i64,
    pub price: i64,
    pub wallet: String,
}

/// Whether an import record is acceptable: non-zero quantity and every
/// field within machine range.
pub open spec fn record_valid(r: NewRecord) -> bool {
    &&& r.bitcoin != 0
    &&& -MAX_SATOSHIS <= r.bitcoin <= MAX_SATOSHIS
    &&& 0 <= r.price <= MAX_PRICE_CENTS
    &&& -crate::model::MAX_TIMESTAMP <= r.date <= crate::model::MAX_TIMESTAMP
}

/// The acquisition lot an import creates from record `r` against ledger
/// `l`: the next free identity, fully undisposed under both trackers, both
/// prices set to the record's price.
pub open spec fn record_acq(l: LedgerView, r: NewRecord) -> AcquisitionView {
    AcquisitionView {
        id: l.next_acquisition_id,
        acquisition_date: r.date as int,
        satoshis: r.bitcoin as int,
        undisposed_satoshis: r.bitcoin as int,
        tax_undisposed_satoshis: r.bitcoin as int,
        usd_cents_btc_basis: r.price as int,
        usd_cents_btc_fair_value: r.price as int,
        wallet: r.wallet@,
    }
}

/// The disposition lot an import creates from record `r` against ledger
/// `l`: the next free identity, fully unmatched under both trackers.
pub open spec fn record_disp(l: LedgerView, r: NewRecord) -> DispositionView {
    DispositionView {
        id: l.next_disposition_id,
        disposition_date: r.date as int,
        satoshis: r.bitcoin as int,
        undisposed_satoshis: r.bitcoin as int,
        tax_undisposed_satoshis: r.bitcoin as int,
        usd_cents_btc_basis: r.price as int,
        wallet: r.wallet@,
    }
}

/// The ledger after inserting one record: an acquiring record appends an
/// acquisition lot, a disposing record a disposition lot.
pub open spec fn with_record(l: LedgerView, r: NewRecord) -> LedgerView {
    if r.bitcoin > 0 {
        LedgerView {
            acquisitions: l.acquisitions.push(record_acq(l, r)),
            next_acquisition_id: l.next_acquisition_id + 1,
            ..l
        }
    } else {
        LedgerView {
            dispositions: l.dispositions.push(record_disp(l, r)),
            next_disposition_id: l.next_disposition_id + 1,
            ..l
        }
    }
}

/// The ledger after inserting a whole record batch, in input order.
pub open spec fn with_records(l: LedgerView, records: Seq<NewRecord>) -> LedgerView
    decreases records.len(),
{
    if records.len() == 0 {
        l
    } else {
        with_record(with_records(l, records.drop_last()), records.last())
    }
}

/// Records are sorted by timestamp: the ingestion collaborator hands them
/// over in chronological order, and the import validates it.
pub open spec fn records_sorted(records: Seq<NewRecord>) -> bool {
    forall|k1: int, k2: int|
        #![trigger records[k1].date, records[k2].date]
        0 <= k1 < k2 < records.len() ==> records[k1].date <= records[k2].date
}

impl Ledger {
    /// Insert every record as a fresh lot, in input order.  Records arrive
    /// sorted by timestamp, so identities ascend with timestamps and a lot
    /// split off later sorts after its parent.
    #[verifier::rlimit(100)]
    fn insert_records(&mut self, records: &Vec<NewRecord>)
        requires
            old(self).inv(),
            forall|k: int| 0 <= k < records@.len() ==> record_valid(#[trigger] records@[k]),
            records_sorted(records@),
            old(self)@.next_acquisition_id + records@.len() < u64::MAX,
            old(self)@.next_disposition_id + records@.len() < u64::MAX,
        ensures
            final(self).inv(),
            final(self)@.acquisitions.len() + final(self)@.dispositions.len() == old(self)@.acquisitions.len() + old(self)@.dispositions.len() + records@.len(),
            old(self)@.acquisitions.len() <= final(self)@.acquisitions.len(),
            old(self)@.dispositions.len() <= final(self)@.dispositions.len(),
            final(self)@.next_acquisition_id == old(self)@.next_acquisition_id + final(self)@.acquisitions.len() - old(self)@.acquisitions.len(),
            final(self)@.next_disposition_id == old(self)@.next_disposition_id + final(self)@.dispositions.len() - old(self)@.dispositions.len(),
            forall|j: int|
                0 <= j < old(self)@.acquisitions.len() ==> final(self)@.acquisitions[j] == old(self)@.acquisitions[j],
            forall|j: int|
                0 <= j < old(self)@.dispositions.len() ==> final(self)@.dispositions[j] == old(self)@.dispositions[j],
            final(self)@.acquisition_dispositions == old(self)@.acquisition_dispositions,
            final(self)@ == with_records(old(self)@, records@),
            old(self)@.acq_matches_consistent(Tracker::Tax) ==> final(self)@.acq_matches_consistent(
                Tracker::Tax,
            ),
            old(self)@.acq_matches_consistent(Tracker::Gaap) ==> final(self)@.acq_matches_consistent(Tracker::Gaap),
    {
        let ghost pre = self@;
        let ghost n = records@.len() as int;
        proof {
            assert(records@.take(0) =~= Seq::<NewRecord>::empty());
        }
        let mut k: usize = 0;
        while k < records.len()
            invariant
                pre == old(self)@,
                self.inv(),
                forall|i: int| 0 <= i < records@.len() ==> record_valid(#[trigger] records@[i]),
                n == records@.len(),
                0 <= k <= n,
                pre.next_acquisition_id + n < u64::MAX,
                pre.next_disposition_id + n < u64::MAX,
                self@.acquisitions.len() + self@.dispositions.len() == pre.acquisitions.len()
                    + pre.dispositions.len() + k,
                pre.acquisitions.len() <= self@.acquisitions.len(),
                pre.dispositions.len() <= self@.dispositions.len(),
                self@.next_acquisition_id == pre.next_acquisition_id + self@.acquisitions.len()
                    - pre.acquisitions.len(),
                self@.next_disposition_id == pre.next_disposition_id + self@.dispositions.len()
                    - pre.dispositions.len(),
                forall|j: int|
                    0 <= j < pre.acquisitions.len() ==> self@.acquisitions[j]
                        == pre.acquisitions[j],
                forall|j: int|
                    0 <= j < pre.dispositions.len() ==> self@.dispositions[j]
                        == pre.dispositions[j],
                self@.acquisition_dispositions == pre.acquisition_dispositions,
                self@ == with_records(pre, records@.take(k as int)),
                pre.acq_matches_consistent(Tracker::Tax) ==> self@.acq_matches_consistent(
                    Tracker::Tax,
                ),
                pre.acq_matches_consistent(Tracker::Gaap) ==> self@.acq_matches_consistent(
                    Tracker::Gaap,
                ),
            decreases n - k,
        {
            let rec = &records[k];
            let ghost st = self@;
            if rec.bitcoin > 0 {
                let lot = crate::store::NewAcquisition {
                    acquisition_date: rec.date,
                    satoshis: rec.bitcoin,
                    undisposed_satoshis: rec.bitcoin,
                    tax_undisposed_satoshis: rec.bitcoin,
                    usd_cents_btc_basis: rec.price,
                    usd_cents_btc_fair_value: rec.price,
                    wallet: rec.wallet.clone(),
                };
                self.insert_acquisition(lot);
                proof {
                    assert(self@ =~= with_record(st, records@[k as int]));
                }
            } else {
                let lot = crate::store::NewDisposition {
                    disposition_date: rec.date,
                    satoshis: rec.bitcoin,
                    undisposed_satoshis: rec.bitcoin,
                    tax_undisposed_satoshis: rec.bitcoin,
                    usd_cents_btc_basis: rec.price,
                    wallet: rec.wallet.clone(),
                };
                self.insert_disposition(lot);
                proof {
                    assert(self@ =~= with_record(st, records@[k as int]));
                }
            }
            proof {
                assert(records@.take(k + 1).drop_last() =~= records@.take(k as int));
                assert(records@.take(k + 1).last() == records@[k as int]);
                assert(self@ == with_records(pre, records@.take(k + 1)));
            }
            k = k + 1;
        }
        proof {
            assert(records@.take(n) =~= records@);
        }
    }
}

impl Ledger {
    /// Import a batch of records and run both matching passes inside one
    /// atomic step: validate, insert every record as a fresh lot, match the
    /// tax tracker, then the GAAP tracker, each under its configured scope.
    /// Any failure leaves the ledger exactly as it was.
    pub fn import_transactions(&mut self, records: &Vec<NewRecord>, config: &crate::config::LotConfig) -> (r: Result<(), LedgerError>)
        requires
            old(self).inv(),
            old(self)@.next_acquisition_id + records@.len() < u64::MAX,
            old(self)@.next_disposition_id + records@.len() < u64::MAX,
        ensures
            r is Err ==> final(self)@ == old(self)@,
            (r matches Err(LedgerError::InvalidRecord { .. })) <==> (exists|k: int|
                0 <= k < records@.len() && !record_valid(#[trigger] records@[k])),
            (r matches Err(LedgerError::OutOfOrderRecord { .. })) ==> !records_sorted(records@),
            r is Err ==> (r matches Err(LedgerError::InvalidRecord { .. })) || (r matches Err(
                LedgerError::OutOfOrderRecord { .. },
            )) || (r matches Err(LedgerError::NoAcquisitionLotsAvailable { .. })) || (r matches Err(
                LedgerError::DispositionPredatesAcquisition { .. },
            )),
            (forall|k: int| 0 <= k < records@.len() ==> record_valid(#[trigger] records@[k]))
                && records_sorted(records@) ==> !(r matches Err(LedgerError::InvalidRecord { .. }))
                && !(r matches Err(LedgerError::OutOfOrderRecord { .. })),
            r is Ok ==> final(self).inv(),
            r is Ok ==> final(self)@.acquisitions.len() + final(self)@.dispositions.len() == old(self)@.acquisitions.len() + old(self)@.dispositions.len() + records@.len(),
            r is Ok ==> forall|j: int|
                0 <= j < final(self)@.dispositions.len() ==> disp_undisposed(
                    #[trigger] final(self)@.dispositions[j],
                    Tracker::Tax,
                ) == 0 && disp_undisposed(final(self)@.dispositions[j], Tracker::Gaap) == 0,
            r is Ok ==> final(self)@.acquisition_dispositions.take(
                old(self)@.acquisition_dispositions.len() as int,
            ) == old(self)@.acquisition_dispositions,
            r is Ok && old(self)@.acq_matches_consistent(Tracker::Tax) ==> final(self)@.acq_matches_consistent(Tracker::Tax),
            r is Ok && old(self)@.acq_matches_consistent(Tracker::Gaap) ==> final(self)@.acq_matches_consistent(Tracker::Gaap),
            r is Ok <==> (forall|k: int| 0 <= k < records@.len() ==> record_valid(
                #[trigger] records@[k],
            )) && records_sorted(records@) && pass_feasible(
                with_records(old(self)@, records@),
                Tracker::Tax,
                config.tax_lot_scope,
            ) && pass_feasible(
                with_records(old(self)@, records@),
                Tracker::Gaap,
                config.gaap_lot_scope,
            ),
            r is Ok ==> ({
                let ins = with_records(old(self)@, records@);
                &&& final(self)@.dispositions.len() == ins.dispositions.len()
                &&& (forall|j: int|
                    0 <= j < ins.dispositions.len() ==> #[trigger] final(self)@.dispositions[j]
                        == crate::model::disp_with_undisposed(
                        crate::model::disp_with_undisposed(ins.dispositions[j], Tracker::Tax, 0),
                        Tracker::Gaap,
                        0,
                    ))
                &&& acq_frame_both(ins.acquisitions, final(self)@.acquisitions)
                &&& final(self)@.next_acquisition_id == ins.next_acquisition_id
                &&& final(self)@.next_disposition_id == ins.next_disposition_id
                &&& (forall|w: Seq<char>| #[trigger] fifo_consumed(
                    ins.acquisitions,
                    final(self)@.acquisitions,
                    Tracker::Tax,
                    config.tax_lot_scope,
                    w,
                ))
                &&& (forall|w: Seq<char>| #[trigger] fifo_consumed(
                    ins.acquisitions,
                    final(self)@.acquisitions,
                    Tracker::Gaap,
                    config.gaap_lot_scope,
                    w,
                ))
                &&& (forall|k: int|
                    ins.acquisition_dispositions.len() <= k < final(self)@.acquisition_dispositions.len() ==> ((
                    #[trigger] final(self)@.acquisition_dispositions[k]).match_type == Tracker::Tax
                        ==> (exists|di: int|
                        0 <= di < final(self)@.dispositions.len() && match_justified(
                            final(self)@.acquisition_dispositions[k],
                            final(self)@.acquisitions,
                            final(self)@.dispositions[di],
                            Tracker::Tax,
                            config.tax_lot_scope,
                        ))) && (final(self)@.acquisition_dispositions[k].match_type
                        == Tracker::Gaap ==> (exists|di: int|
                        0 <= di < final(self)@.dispositions.len() && match_justified(
                            final(self)@.acquisition_dispositions[k],
                            final(self)@.acquisitions,
                            final(self)@.dispositions[di],
                            Tracker::Gaap,
                            config.gaap_lot_scope,
                        ))))
            }),
    {
        let mut k: usize = 0;
        while k < records.len()
            invariant
                self.inv(),
                self@ == old(self)@,
                0 <= k <= records@.len(),
                forall|i: int| 0 <= i < k ==> record_valid(#[trigger] records@[i]),
            decreases records@.len() - k,
        {
            let rec = &records[k];
            let valid = rec.bitcoin != 0 && -MAX_SATOSHIS <= rec.bitcoin && rec.bitcoin
                <= MAX_SATOSHIS && 0 <= rec.price && rec.price <= MAX_PRICE_CENTS
                && -crate::model::MAX_TIMESTAMP <= rec.date && rec.date
                <= crate::model::MAX_TIMESTAMP;
            if !valid {
                return Err(LedgerError::InvalidRecord { index: k });
            }
            k = k + 1;
        }
        let mut k: usize = 1;
        while k < records.len()
            invariant
                self.inv(),
                self@ == old(self)@,
                1 <= k || records@.len() == 0,
                k <= records@.len() || records@.len() == 0,
                forall|i: int| 0 <= i < records@.len() ==> record_valid(#[trigger] records@[i]),
                forall|k1: int, k2: int|
                    #![trigger records@[k1].date, records@[k2].date]
                    0 <= k1 < k2 < k ==> records@[k1].date <= records@[k2].date,
            decreases records@.len() - k,
        {
            if records[k - 1].date > records[k].date {
                return Err(LedgerError::OutOfOrderRecord { index: k });
            }
            proof {
                assert forall|k1: int, k2: int|
                    #![trigger records@[k1].date, records@[k2].date]
                    0 <= k1 < k2 < k + 1 implies records@[k1].date <= records@[k2].date by {
                    if k2 == k {
                        assert(records@[k1].date <= records@[k - 1].date || k1 == k - 1);
                    }
                }
            }
            k = k + 1;
        }
        let mut work = self.clone();
        work.insert_records(records);
        let ghost ins = work@;
        let tax_result = work.run_matching_pass(Tracker::Tax, config.tax_lot_scope);
        let ghost mid = work@;
        match tax_result {
            Err(e) => {
                return Err(e);
            },
            Ok(()) => {},
        }
        let gaap_result = work.run_matching_pass(Tracker::Gaap, config.gaap_lot_scope);
        let ghost fin = work@;
        proof {
            Self::lemma_pass_feasible_other(
                ins,
                mid,
                Tracker::Tax,
                Tracker::Gaap,
                config.gaap_lot_scope,
            );
        }
        match gaap_result {
            Err(e) => {
                return Err(e);
            },
            Ok(()) => {},
        }
        proof {
            assert(work@.acquisition_dispositions.take(
                self@.acquisition_dispositions.len() as int,
            ) =~= self@.acquisition_dispositions);
            assert forall|j: int| 0 <= j < ins.dispositions.len() implies #[trigger] fin.dispositions[j]
                == crate::model::disp_with_undisposed(
                crate::model::disp_with_undisposed(ins.dispositions[j], Tracker::Tax, 0),
                Tracker::Gaap,
                0,
            ) by {
                assert(disp_undisposed(mid.dispositions[j], Tracker::Tax) == 0);
                assert(disp_undisposed(fin.dispositions[j], Tracker::Gaap) == 0);
                assert(fin.dispositions[j] =~= crate::model::disp_with_undisposed(
                    crate::model::disp_with_undisposed(ins.dispositions[j], Tracker::Tax, 0),
                    Tracker::Gaap,
                    0,
                ));
            }
            assert forall|j: int| 0 <= j < ins.acquisitions.len() implies (
            #[trigger] fin.acquisitions[j]).id == ins.acquisitions[j].id
                && fin.acquisitions[j].acquisition_date == ins.acquisitions[j].acquisition_date
                && fin.acquisitions[j].satoshis == ins.acquisitions[j].satoshis
                && fin.acquisitions[j].usd_cents_btc_basis
                == ins.acquisitions[j].usd_cents_btc_basis
                && fin.acquisitions[j].usd_cents_btc_fair_value
                == ins.acquisitions[j].usd_cents_btc_fair_value && fin.acquisitions[j].wallet
                == ins.acquisitions[j].wallet && 0 <= fin.acquisitions[j].tax_undisposed_satoshis
                <= ins.acquisitions[j].tax_undisposed_satoshis && 0
                <= fin.acquisitions[j].undisposed_satoshis
                <= ins.acquisitions[j].undisposed_satoshis by {
                assert(mid.acquisitions[j] == crate::model::acq_with_undisposed(
                    ins.acquisitions[j],
                    Tracker::Tax,
                    acq_undisposed(mid.acquisitions[j], Tracker::Tax),
                ));
                assert(fin.acquisitions[j] == crate::model::acq_with_undisposed(
                    mid.acquisitions[j],
                    Tracker::Gaap,
                    acq_undisposed(fin.acquisitions[j], Tracker::Gaap),
                ));
            }
            assert forall|w: Seq<char>| #[trigger] fifo_consumed(
                ins.acquisitions,
                fin.acquisitions,
                Tracker::Tax,
                config.tax_lot_scope,
                w,
            ) by {
                assert(fifo_consumed(
                    ins.acquisitions,
                    mid.acquisitions,
                    Tracker::Tax,
                    config.tax_lot_scope,
                    w,
                ));
                Self::lemma_fifo_lift(
                    ins.acquisitions,
                    mid.acquisitions,
                    fin.acquisitions,
                    Tracker::Tax,
                    config.tax_lot_scope,
                    w,
                );
            }
            assert forall|w: Seq<char>| #[trigger] fifo_consumed(
                ins.acquisitions,
                fin.acquisitions,
                Tracker::Gaap,
                config.gaap_lot_scope,
                w,
            ) by {
                assert(fifo_consumed(
                    mid.acquisitions,
                    fin.acquisitions,
                    Tracker::Gaap,
                    config.gaap_lot_scope,
                    w,
                ));
                Self::lemma_fifo_shift(
                    ins.acquisitions,
                    mid.acquisitions,
                    fin.acquisitions,
                    Tracker::Gaap,
                    config.gaap_lot_scope,
                    w,
                );
            }
            assert forall|k: int|
                ins.acquisition_dispositions.len() <= k
                    < fin.acquisition_dispositions.len() implies ((
            #[trigger] fin.acquisition_dispositions[k]).match_type == Tracker::Tax ==> (exists|
                di: int,
            |
                0 <= di < fin.dispositions.len() && match_justified(
                    fin.acquisition_dispositions[k],
                    fin.acquisitions,
                    fin.dispositions[di],
                    Tracker::Tax,
                    config.tax_lot_scope,
                ))) && (fin.acquisition_dispositions[k].match_type == Tracker::Gaap ==> (exists|
                di: int,
            |
                0 <= di < fin.dispositions.len() && match_justified(
                    fin.acquisition_dispositions[k],
                    fin.acquisitions,
                    fin.dispositions[di],
                    Tracker::Gaap,
                    config.gaap_lot_scope,
                ))) by {
                let m = fin.acquisition_dispositions[k];
                if k < mid.acquisition_dispositions.len() {
                    assert(fin.acquisition_dispositions[k]
                        == mid.acquisition_dispositions[k]);
                    let di = choose|di: int|
                        0 <= di < mid.dispositions.len() && match_justified(
                            mid.acquisition_dispositions[k],
                            mid.acquisitions,
                            #[trigger] mid.dispositions[di],
                            Tracker::Tax,
                            config.tax_lot_scope,
                        );
                    Self::lemma_justified_stable(
                        m,
                        mid.acquisitions,
                        fin.acquisitions,
                        mid.dispositions[di],
                        fin.dispositions[di],
                        Tracker::Tax,
                        config.tax_lot_scope,
                    );
                }
            }
        }
        *self = work;
        Ok(())
    }
}

impl Ledger {
    /// The predating supply reads only the disposition's wallet and date.
    proof fn lemma_supply_congruent(
        acqs: Seq<AcquisitionView>,
        d1: DispositionView,
        d2: DispositionView,
        t: Tracker,
        scope: Scope,
    )
        requires
            d1.wallet == d2.wallet,
            d1.disposition_date == d2.disposition_date,
        ensures
            predating_supply(acqs, d1, t, scope) == predating_supply(acqs, d2, t, scope),
    {
        crate::sums::lemma_sum_map_congruence(
            acqs,
            acqs,
            |a: AcquisitionView|
                if in_scope(a, scope, d1.wallet) && a.acquisition_date <= d1.disposition_date {
                    acq_undisposed(a, t)
                } else {
                    0
                },
            |a: AcquisitionView|
                if in_scope(a, scope, d2.wallet) && a.acquisition_date <= d2.disposition_date {
                    acq_undisposed(a, t)
                } else {
                    0
                },
        );
    }

    /// The cumulative class demand reads only the reference disposition's
    /// wallet, date and identity.
    proof fn lemma_demand_congruent(
        disps: Seq<DispositionView>,
        d1: DispositionView,
        d2: DispositionView,
        t: Tracker,
        scope: Scope,
    )
        requires
            d1.wallet == d2.wallet,
            d1.disposition_date == d2.disposition_date,
            d1.id == d2.id,
        ensures
            class_demand_through(disps, d1, t, scope) == class_demand_through(disps, d2, t, scope),
    {
        crate::sums::lemma_sum_map_congruence(
            disps,
            disps,
            |x: DispositionView|
                if same_class(x, d1, scope) && disp_key_le(x, d1) {
                    -disp_undisposed(x, t)
                } else {
                    0
                },
            |x: DispositionView|
                if same_class(x, d2, scope) && disp_key_le(x, d2) {
                    -disp_undisposed(x, t)
                } else {
                    0
                },
        );
    }

    /// One disposition processed to completion advances the feasibility
    /// bookkeeping: every still-unmatched disposition keeps its
    /// supply-minus-demand balance, a disposition that matched in full was
    /// owed success at the pass's start, and one that failed refutes the
    /// feasibility of the whole pass.
    #[verifier::rlimit(100)]
    proof fn lemma_pass_iff_step(
        pre: LedgerView,
        mid: LedgerView,
        post: LedgerView,
        di: int,
        t: Tracker,
        scope: Scope,
        ok: bool,
    )
        requires
            mid.wf(),
            0 <= di < mid.dispositions.len(),
            mid.dispositions.len() == pre.dispositions.len(),
            mid.acquisitions.len() == pre.acquisitions.len(),
            post.acquisitions.len() == mid.acquisitions.len(),
            post.dispositions.len() == mid.dispositions.len(),
            forall|j: int|
                0 <= j < pre.dispositions.len() ==> (#[trigger] mid.dispositions[j])
                    == crate::model::disp_with_undisposed(
                    pre.dispositions[j],
                    t,
                    disp_undisposed(mid.dispositions[j], t),
                ),
            forall|j: int|
                0 <= j < pre.dispositions.len() ==> disp_undisposed(
                    #[trigger] mid.dispositions[j],
                    t,
                ) == 0 || disp_undisposed(mid.dispositions[j], t) == disp_undisposed(
                    pre.dispositions[j],
                    t,
                ),
            forall|i: int|
                0 <= i < pre.dispositions.len() && disp_undisposed(
                    #[trigger] mid.dispositions[i],
                    t,
                ) != 0 ==> predating_supply(mid.acquisitions, pre.dispositions[i], t, scope)
                    - predating_supply(pre.acquisitions, pre.dispositions[i], t, scope)
                    == class_demand_through(mid.dispositions, pre.dispositions[i], t, scope)
                    - class_demand_through(pre.dispositions, pre.dispositions[i], t, scope),
            disp_undisposed(mid.dispositions[di], t) != 0,
            forall|j: int|
                0 <= j < mid.dispositions.len() && j != di && disp_undisposed(
                    #[trigger] mid.dispositions[j],
                    t,
                ) != 0 ==> crate::store::disp_key_lt(mid.dispositions[di], mid.dispositions[j]),
            forall|j: int|
                0 <= j < mid.dispositions.len() && j != di ==> #[trigger] post.dispositions[j]
                    == mid.dispositions[j],
            post.dispositions[di] == crate::model::disp_with_undisposed(
                mid.dispositions[di],
                t,
                disp_undisposed(post.dispositions[di], t),
            ),
            disp_undisposed(mid.dispositions[di], t) <= disp_undisposed(post.dispositions[di], t)
                <= 0,
            acq_frame_t(mid.acquisitions, post.acquisitions, t),
            forall|j: int|
                0 <= j < mid.acquisitions.len() && !in_scope(
                    #[trigger] mid.acquisitions[j],
                    scope,
                    mid.dispositions[di].wallet,
                ) ==> post.acquisitions[j] == mid.acquisitions[j],
            forall|j: int|
                0 <= j < mid.acquisitions.len() && mid.acquisitions[j].acquisition_date
                    > mid.dispositions[di].disposition_date ==> acq_undisposed(
                    #[trigger] post.acquisitions[j],
                    t,
                ) == acq_undisposed(mid.acquisitions[j], t),
            predating_supply(post.acquisitions, mid.dispositions[di], t, scope)
                == predating_supply(mid.acquisitions, mid.dispositions[di], t, scope) - (
            disp_undisposed(post.dispositions[di], t) - disp_undisposed(mid.dispositions[di], t)),
            ok <==> predating_supply(mid.acquisitions, mid.dispositions[di], t, scope)
                >= -disp_undisposed(mid.dispositions[di], t),
            ok ==> disp_undisposed(post.dispositions[di], t) == 0,
        ensures
            ok ==> forall|j: int|
                0 <= j < pre.dispositions.len() ==> disp_undisposed(
                    #[trigger] post.dispositions[j],
                    t,
                ) == 0 || disp_undisposed(post.dispositions[j], t) == disp_undisposed(
                    pre.dispositions[j],
                    t,
                ),
            ok ==> forall|i: int|
                0 <= i < pre.dispositions.len() && disp_undisposed(
                    #[trigger] post.dispositions[i],
                    t,
                ) != 0 ==> predating_supply(post.acquisitions, pre.dispositions[i], t, scope)
                    - predating_supply(pre.acquisitions, pre.dispositions[i], t, scope)
                    == class_demand_through(post.dispositions, pre.dispositions[i], t, scope)
                    - class_demand_through(pre.dispositions, pre.dispositions[i], t, scope),
            ok ==> class_demand_through(pre.dispositions, pre.dispositions[di], t, scope)
                <= predating_supply(pre.acquisitions, pre.dispositions[di], t, scope),
            !ok ==> disp_undisposed(pre.dispositions[di], t) != 0 && class_demand_through(
                pre.dispositions,
                pre.dispositions[di],
                t,
                scope,
            ) > predating_supply(pre.acquisitions, pre.dispositions[di], t, scope),
            !ok ==> !pass_feasible(pre, t, scope),
    {
        let d = pre.dispositions[di];
        let mid_u = disp_undisposed(mid.dispositions[di], t);
        let post_u = disp_undisposed(post.dispositions[di], t);
        assert(mid_u == disp_undisposed(pre.dispositions[di], t));
        assert(mid.dispositions[di].wallet == d.wallet && mid.dispositions[di].disposition_date
            == d.disposition_date && mid.dispositions[di].id == d.id);
        Self::lemma_supply_congruent(mid.acquisitions, mid.dispositions[di], d, t, scope);
        Self::lemma_supply_congruent(post.acquisitions, mid.dispositions[di], d, t, scope);
        // The class demand of the current minimum is its own magnitude:
        // every earlier-keyed disposition in its class is already matched.
        let fmid = |x: DispositionView|
            if same_class(x, d, scope) && disp_key_le(x, d) {
                -disp_undisposed(x, t)
            } else {
                0
            };
        assert forall|j: int| 0 <= j < mid.dispositions.len() && j != di implies #[trigger] fmid(
            mid.dispositions[j],
        ) == 0 by {
            if same_class(mid.dispositions[j], d, scope) && disp_key_le(mid.dispositions[j], d) {
                if disp_undisposed(mid.dispositions[j], t) != 0 {
                    assert(crate::store::disp_key_lt(mid.dispositions[di], mid.dispositions[j]));
                    assert(false);
                }
            }
        }
        crate::sums::lemma_sum_map_single(mid.dispositions, fmid, di);
        assert(fmid(mid.dispositions[di]) == -mid_u);
        assert(class_demand_through(mid.dispositions, d, t, scope) == -mid_u);
        let sup_pre = predating_supply(pre.acquisitions, d, t, scope);
        let dt_pre = class_demand_through(pre.dispositions, d, t, scope);
        assert(predating_supply(mid.acquisitions, d, t, scope) - sup_pre == (-mid_u) - dt_pre);
        assert(ok <==> dt_pre <= sup_pre);
        if !ok {
            assert(disp_undisposed(pre.dispositions[di], t) != 0);
            assert(!pass_feasible(pre, t, scope));
        } else {
            assert forall|i: int|
                0 <= i < pre.dispositions.len() && disp_undisposed(
                    #[trigger] post.dispositions[i],
                    t,
                ) != 0 implies predating_supply(post.acquisitions, pre.dispositions[i], t, scope)
                - predating_supply(pre.acquisitions, pre.dispositions[i], t, scope)
                == class_demand_through(post.dispositions, pre.dispositions[i], t, scope)
                - class_demand_through(pre.dispositions, pre.dispositions[i], t, scope) by {
                let d_i = pre.dispositions[i];
                assert(i != di);
                assert(post.dispositions[i] == mid.dispositions[i]);
                assert(mid.dispositions[i].wallet == d_i.wallet && mid.dispositions[i].id == d_i.id
                    && mid.dispositions[i].disposition_date == d_i.disposition_date);
                assert(crate::store::disp_key_lt(mid.dispositions[di], mid.dispositions[i]));
                // Demand moves only through the processed disposition's term.
                let f_i = |x: DispositionView|
                    if same_class(x, d_i, scope) && disp_key_le(x, d_i) {
                        -disp_undisposed(x, t)
                    } else {
                        0
                    };
                assert(post.dispositions =~= mid.dispositions.update(di, post.dispositions[di]));
                crate::sums::lemma_sum_map_update(
                    mid.dispositions,
                    f_i,
                    di,
                    post.dispositions[di],
                );
                let g_i = |a: AcquisitionView|
                    if in_scope(a, scope, d_i.wallet) && a.acquisition_date
                        <= d_i.disposition_date {
                        acq_undisposed(a, t)
                    } else {
                        0
                    };
                let g_d = |a: AcquisitionView|
                    if in_scope(a, scope, d.wallet) && a.acquisition_date <= d.disposition_date {
                        acq_undisposed(a, t)
                    } else {
                        0
                    };
                if same_class(mid.dispositions[di], d_i, scope) {
                    assert(f_i(post.dispositions[di]) - f_i(mid.dispositions[di]) == mid_u
                        - post_u);
                    assert forall|j: int| 0 <= j < mid.acquisitions.len() implies #[trigger] g_i(
                        post.acquisitions[j],
                    ) - g_i(mid.acquisitions[j]) == g_d(post.acquisitions[j]) - g_d(
                        mid.acquisitions[j],
                    ) by {
                        if acq_undisposed(post.acquisitions[j], t) == acq_undisposed(
                            mid.acquisitions[j],
                            t,
                        ) {
                            assert(post.acquisitions[j] =~= crate::model::acq_with_undisposed(
                                mid.acquisitions[j],
                                t,
                                acq_undisposed(mid.acquisitions[j], t),
                            ));
                            assert(post.acquisitions[j] =~= mid.acquisitions[j]);
                        } else {
                            assert(in_scope(mid.acquisitions[j], scope, d.wallet));
                            assert(mid.acquisitions[j].acquisition_date <= d.disposition_date);
                            assert(in_scope(mid.acquisitions[j], scope, d_i.wallet));
                            assert(mid.acquisitions[j].acquisition_date <= d_i.disposition_date);
                            assert(in_scope(post.acquisitions[j], scope, d.wallet));
                            assert(in_scope(post.acquisitions[j], scope, d_i.wallet));
                            assert(post.acquisitions[j].acquisition_date
                                == mid.acquisitions[j].acquisition_date);
                        }
                    }
                    crate::sums::lemma_sum_map_delta_eq(
                        mid.acquisitions,
                        post.acquisitions,
                        g_d,
                        g_i,
                    );
                } else {
                    assert(f_i(post.dispositions[di]) == 0 && f_i(mid.dispositions[di]) == 0);
                    assert forall|j: int| 0 <= j < mid.acquisitions.len() implies #[trigger] g_i(
                        post.acquisitions[j],
                    ) == g_i(mid.acquisitions[j]) by {
                        if acq_undisposed(post.acquisitions[j], t) == acq_undisposed(
                            mid.acquisitions[j],
                            t,
                        ) {
                            assert(post.acquisitions[j] =~= crate::model::acq_with_undisposed(
                                mid.acquisitions[j],
                                t,
                                acq_undisposed(mid.acquisitions[j], t),
                            ));
                            assert(post.acquisitions[j] =~= mid.acquisitions[j]);
                        } else {
                            assert(in_scope(mid.acquisitions[j], scope, d.wallet));
                            assert(!in_scope(mid.acquisitions[j], scope, d_i.wallet));
                            assert(!in_scope(post.acquisitions[j], scope, d_i.wallet));
                        }
                    }
                    crate::sums::lemma_sum_map_congruence(
                        post.acquisitions,
                        mid.acquisitions,
                        g_i,
                        g_i,
                    );
                }
            }
        }
    }
}

impl Ledger {
    /// A pass under one tracker does not move the other tracker, so
    /// feasibility under the other tracker is unchanged.
    proof fn lemma_pass_feasible_other(
        l1: LedgerView,
        l2: LedgerView,
        t_run: Tracker,
        t_other: Tracker,
        scope: Scope,
    )
        requires
            t_run != t_other,
            l2.dispositions.len() == l1.dispositions.len(),
            forall|j: int|
                0 <= j < l1.dispositions.len() ==> (#[trigger] l2.dispositions[j])
                    == crate::model::disp_with_undisposed(
                    l1.dispositions[j],
                    t_run,
                    disp_undisposed(l2.dispositions[j], t_run),
                ),
            acq_frame_t(l1.acquisitions, l2.acquisitions, t_run),
        ensures
            pass_feasible(l2, t_other, scope) == pass_feasible(l1, t_other, scope),
    {
        assert forall|i: int| 0 <= i < l1.dispositions.len() implies disp_undisposed(
            #[trigger] l2.dispositions[i],
            t_other,
        ) == disp_undisposed(l1.dispositions[i], t_other) && l2.dispositions[i].wallet
            == l1.dispositions[i].wallet && l2.dispositions[i].disposition_date
            == l1.dispositions[i].disposition_date && l2.dispositions[i].id
            == l1.dispositions[i].id by {}
        assert forall|i: int| 0 <= i < l1.dispositions.len() implies class_demand_through(
            l2.dispositions,
            #[trigger] l2.dispositions[i],
            t_other,
            scope,
        ) == class_demand_through(l1.dispositions, l1.dispositions[i], t_other, scope)
            && predating_supply(l2.acquisitions, l2.dispositions[i], t_other, scope)
            == predating_supply(l1.acquisitions, l1.dispositions[i], t_other, scope) by {
            let d1 = l1.dispositions[i];
            Self::lemma_demand_congruent(l2.dispositions, l2.dispositions[i], d1, t_other, scope);
            crate::sums::lemma_sum_map_congruence(
                l2.dispositions,
                l1.dispositions,
                |x: DispositionView|
                    if same_class(x, d1, scope) && disp_key_le(x, d1) {
                        -disp_undisposed(x, t_other)
                    } else {
                        0
                    },
                |x: DispositionView|
                    if same_class(x, d1, scope) && disp_key_le(x, d1) {
                        -disp_undisposed(x, t_other)
                    } else {
                        0
                    },
            );
            Self::lemma_supply_congruent(l2.acquisitions, l2.dispositions[i], d1, t_other, scope);
            crate::sums::lemma_sum_map_congruence(
                l2.acquisitions,
                l1.acquisitions,
                |a: AcquisitionView|
                    if in_scope(a, scope, d1.wallet) && a.acquisition_date <= d1.disposition_date {
                        acq_undisposed(a, t_other)
                    } else {
                        0
                    },
                |a: AcquisitionView|
                    if in_scope(a, scope, d1.wallet) && a.acquisition_date <= d1.disposition_date {
                        acq_undisposed(a, t_other)
                    } else {
                        0
                    },
            );
        }
        if pass_feasible(l1, t_other, scope) {
            assert forall|i: int|
                0 <= i < l2.dispositions.len() && disp_undisposed(
                    #[trigger] l2.dispositions[i],
                    t_other,
                ) != 0 implies class_demand_through(l2.dispositions, l2.dispositions[i], t_other, scope)
                <= predating_supply(l2.acquisitions, l2.dispositions[i], t_other, scope) by {
                assert(disp_undisposed(l1.dispositions[i], t_other) != 0);
            }
        }
        if pass_feasible(l2, t_other, scope) {
            assert forall|i: int|
                0 <= i < l1.dispositions.len() && disp_undisposed(
                    #[trigger] l1.dispositions[i],
                    t_other,
                ) != 0 implies class_demand_through(l1.dispositions, l1.dispositions[i], t_other, scope)
                <= predating_supply(l1.acquisitions, l1.dispositions[i], t_other, scope) by {
                assert(disp_undisposed(l2.dispositions[i], t_other) != 0);
            }
        }
    }

    /// FIFO exhaustion survives a later pass that does not move this
    /// tracker.
    proof fn lemma_fifo_lift(
        pre: Seq<AcquisitionView>,
        mid: Seq<AcquisitionView>,
        post: Seq<AcquisitionView>,
        t: Tracker,
        scope: Scope,
        w: Seq<char>,
    )
        requires
            pre.len() == mid.len(),
            mid.len() == post.len(),
            fifo_consumed(pre, mid, t, scope, w),
            forall|j: int|
                0 <= j < mid.len() ==> acq_undisposed(#[trigger] post[j], t) == acq_undisposed(
                    mid[j],
                    t,
                ),
        ensures
            fifo_consumed(pre, post, t, scope, w),
    {
    }

    /// FIFO exhaustion against an earlier baseline whose tracker values and
    /// identifying fields this pass's own baseline preserves.
    proof fn lemma_fifo_shift(
        pre: Seq<AcquisitionView>,
        mid: Seq<AcquisitionView>,
        post: Seq<AcquisitionView>,
        t: Tracker,
        scope: Scope,
        w: Seq<char>,
    )
        requires
            pre.len() == mid.len(),
            mid.len() == post.len(),
            fifo_consumed(mid, post, t, scope, w),
            forall|j: int|
                0 <= j < pre.len() ==> (#[trigger] mid[j]).wallet == pre[j].wallet
                    && mid[j].acquisition_date == pre[j].acquisition_date && mid[j].id == pre[j].id
                    && acq_undisposed(mid[j], t) == acq_undisposed(pre[j], t),
        ensures
            fifo_consumed(pre, post, t, scope, w),
    {
        assert forall|i: int, j: int|
            #![trigger pre[i], pre[j]]
            0 <= i < pre.len() && 0 <= j < pre.len() && in_scope(pre[i], scope, w) && in_scope(
                pre[j],
                scope,
                w,
            ) && acq_key_lt(pre[i], pre[j]) && acq_undisposed(post[j], t) < acq_undisposed(
                pre[j],
                t,
            ) implies acq_undisposed(post[i], t) == 0 by {
            assert(in_scope(mid[i], scope, w) && in_scope(mid[j], scope, w));
            assert(acq_key_lt(mid[i], mid[j]));
            assert(acq_undisposed(post[j], t) < acq_undisposed(mid[j], t));
        }
    }

    /// A match's justification reads only fields that later passes keep.
    proof fn lemma_justified_stable(
        m: MatchView,
        acqs1: Seq<AcquisitionView>,
        acqs2: Seq<AcquisitionView>,
        d1: DispositionView,
        d2: DispositionView,
        t: Tracker,
        scope: Scope,
    )
        requires
            acqs1.len() == acqs2.len(),
            forall|j: int|
                0 <= j < acqs1.len() ==> (#[trigger] acqs2[j]).id == acqs1[j].id
                    && acqs2[j].acquisition_date == acqs1[j].acquisition_date
                    && acqs2[j].usd_cents_btc_basis == acqs1[j].usd_cents_btc_basis
                    && acqs2[j].usd_cents_btc_fair_value == acqs1[j].usd_cents_btc_fair_value
                    && acqs2[j].wallet == acqs1[j].wallet,
            d2.id == d1.id,
            d2.satoshis == d1.satoshis,
            d2.wallet == d1.wallet,
            d2.disposition_date == d1.disposition_date,
            d2.usd_cents_btc_basis == d1.usd_cents_btc_basis,
            match_justified(m, acqs1, d1, t, scope),
        ensures
            match_justified(m, acqs2, d2, t, scope),
    {
        let j = choose|j: int| 0 <= j < acqs1.len() && justifies(#[trigger] acqs1[j], m, d1, t, scope);
        assert(justifies(acqs2[j], m, d2, t, scope));
    }
}

} // verus!
