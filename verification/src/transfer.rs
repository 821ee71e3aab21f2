//! The wallet transfer tool: date-ordered, FIFO-consuming movement of
//! tax-tracked quantity between wallets, splitting the final partial lot
//! proportionally when the trackers have diverged.
use vstd::prelude::*;

verus! {

use crate::errors::LedgerError;
use crate::model::{
    acq_undisposed,
    acq_wf,
    eligible,
    in_scope,
    total_gaap_undisposed,
    total_satoshis,
    total_tax_undisposed,
    wallet_tax_undisposed,
    AcquisitionView,
    Scope,
    Tracker,
    MAX_SATOSHIS,
};
use crate::store::Ledger;
use crate::sums::{lemma_sum_map_bound, lemma_sum_map_push, lemma_sum_map_update, sum_map};

/// One transfer request: move `satoshis` of tax-tracked quantity from one
/// wallet to another, effective at `date`.
#[derive(Debug)]
pub struct TransferRecord {
    pub date: i64,
    pub from: String,
    pub to: String,
    pub satoshis: i64,
}

/// Every touched lot was re-tagged whole: it kept every field except the
/// wallet, which moved from the source to the destination.
pub open spec fn whole_moves_only(
    pre: Seq<AcquisitionView>,
    post: Seq<AcquisitionView>,
    from: Seq<char>,
    to: Seq<char>,
) -> bool {
    &&& post.len() == pre.len()
    &&& forall|j: int|
        0 <= j < pre.len() ==> #[trigger] post[j] == pre[j] || (pre[j].wallet == from && post[j]
            == crate::model::acq_with_wallet(pre[j], to))
}

/// The transfer ended by splitting lot `p`: the split-off amounts are the
/// proportional rounded quantities of the transferred tax amount, the
/// child carries the next free identity and the destination wallet, and
/// every other touched lot was re-tagged whole.
pub open spec fn split_finish(
    pre: crate::model::LedgerView,
    post: crate::model::LedgerView,
    from: Seq<char>,
    to: Seq<char>,
    p: int,
) -> bool {
    let lot = pre.acquisitions[p];
    let tt = lot.tax_undisposed_satoshis - post.acquisitions[p].tax_undisposed_satoshis;
    let ts = crate::rounding::rounded_div(lot.satoshis * tt, lot.tax_undisposed_satoshis);
    let tg = crate::rounding::rounded_div(
        lot.undisposed_satoshis * tt,
        lot.tax_undisposed_satoshis,
    );
    &&& post.acquisitions.len() == pre.acquisitions.len() + 1
    &&& lot.wallet == from
    &&& 0 < tt < lot.tax_undisposed_satoshis
    &&& post.acquisitions[p] == crate::model::split_parent(lot, ts, tg, tt)
    &&& post.acquisitions.last() == crate::model::split_child(
        lot,
        pre.next_acquisition_id,
        ts,
        tg,
        tt,
        to,
    )
    &&& forall|j: int|
        0 <= j < pre.acquisitions.len() && j != p ==> #[trigger] post.acquisitions[j]
            == pre.acquisitions[j] || (pre.acquisitions[j].wallet == from && post.acquisitions[j]
            == crate::model::acq_with_wallet(pre.acquisitions[j], to))
}

/// What one transfer does to the lot table: whole re-tags only, or whole
/// re-tags followed by one proportional split.
pub open spec fn transfer_one_effect(
    pre: crate::model::LedgerView,
    post: crate::model::LedgerView,
    from: Seq<char>,
    to: Seq<char>,
) -> bool {
    whole_moves_only(pre.acquisitions, post.acquisitions, from, to) || (exists|p: int|
        0 <= p < pre.acquisitions.len() && #[trigger] split_finish(pre, post, from, to, p))
}

/// FIFO consumption: whenever a later-keyed lot of the source wallet was
/// touched, every earlier-keyed lot of that wallet has been moved out in
/// full, unless it had no tax quantity to move.
pub open spec fn transfer_fifo(
    pre: Seq<AcquisitionView>,
    post: Seq<AcquisitionView>,
    from: Seq<char>,
    to: Seq<char>,
) -> bool {
    forall|i: int, j: int|
        #![trigger pre[i], pre[j]]
        0 <= i < pre.len() && 0 <= j < pre.len() && pre[i].wallet == from && pre[j].wallet == from
            && crate::model::acq_key_lt(pre[i], pre[j]) && post[j] != pre[j] ==> post[i].wallet
            == to || pre[i].tax_undisposed_satoshis == 0
}

/// The net tax quantity one request moves into wallet `w`.
pub open spec fn request_delta(r: TransferRecord, w: Seq<char>) -> int {
    (if r.to@ == w {
        r.satoshis as int
    } else {
        0
    }) - (if r.from@ == w {
        r.satoshis as int
    } else {
        0
    })
}

/// The net change a whole request batch makes to wallet `w`'s
/// tax-undisposed sum.
pub open spec fn net_wallet_delta(requests: Seq<TransferRecord>, w: Seq<char>) -> int {
    sum_map(requests, |r: TransferRecord| request_delta(r, w))
}

/// Whether request `j` is processed before request `k`: strictly earlier
/// timestamp, or the same timestamp and an earlier input position.
pub open spec fn request_before(requests: Seq<TransferRecord>, j: int, k: int) -> bool {
    requests[j].date < requests[k].date || (requests[j].date == requests[k].date && j < k)
}

/// The net change the requests processed before request `k` make to `w`.
pub open spec fn net_before(requests: Seq<TransferRecord>, k: int, w: Seq<char>) -> int {
    crate::sums::sum_map_idx(
        requests,
        |j: int, r: TransferRecord|
            if request_before(requests, j, k) {
                request_delta(r, w)
            } else {
                0
            },
    )
}

/// When a transfer batch is owed success: every request asks a positive
/// quantity and, processed strictly in timestamp order with ties keeping
/// input order, finds its source wallet holding at least the requested
/// amount.
pub open spec fn transfer_feasible(
    l: crate::model::LedgerView,
    requests: Seq<TransferRecord>,
) -> bool {
    &&& forall|k: int| 0 <= k < requests.len() ==> (#[trigger] requests[k]).satoshis > 0
    &&& forall|k: int|
        0 <= k < requests.len() ==> wallet_tax_undisposed(
            l.acquisitions,
            (#[trigger] requests[k]).from@,
        ) + net_before(requests, k, requests[k].from@) >= requests[k].satoshis
}

/// Whether request `j` lies at or before the processing cursor.
pub open spec fn req_done(
    requests: Seq<TransferRecord>,
    j: int,
    cursor: Option<(i64, usize)>,
) -> bool {
    match cursor {
        None => false,
        Some(c) => requests[j].date < c.0 || (requests[j].date == c.0 && j <= c.1),
    }
}

/// The net change of the requests at or before the cursor.
pub open spec fn processed_net(
    requests: Seq<TransferRecord>,
    cursor: Option<(i64, usize)>,
    w: Seq<char>,
) -> int {
    crate::sums::sum_map_idx(
        requests,
        |j: int, r: TransferRecord|
            if req_done(requests, j, cursor) {
                request_delta(r, w)
            } else {
                0
            },
    )
}

/// The requests at or before the cursor.
pub open spec fn done_request_set(
    requests: Seq<TransferRecord>,
    cursor: Option<(i64, usize)>,
) -> Set<int> {
    Set::new(|k: int| 0 <= k < requests.len() && req_done(requests, k, cursor))
}

impl Ledger {
    /// Move `satoshis` of tax-undisposed quantity from wallet `from` to
    /// wallet `to`, consuming lots in FIFO order: whole lots are
    /// re-tagged, and the last partial lot is split proportionally.
    ///
    /// Succeeds exactly when `from` holds at least the requested quantity;
    /// an insufficient balance changes nothing.  The totals of all three
    /// quantity fields over the whole ledger never change.
    pub fn transfer_one(&mut self, from: &String, to: &String, satoshis: i64) -> (r: Result<
        (),
        LedgerError,
    >)
        requires
            old(self).inv(),
            0 < satoshis,
            old(self)@.next_acquisition_id < u64::MAX,
        ensures
            final(self).inv(),
            final(self)@.next_acquisition_id <= old(self)@.next_acquisition_id + 1,
            r is Ok <==> wallet_tax_undisposed(old(self)@.acquisitions, from@) >= satoshis,
            r is Err ==> final(self)@ == old(self)@,
            r is Err ==> (r matches Err(LedgerError::InsufficientBalance { .. })),
            final(self)@.dispositions == old(self)@.dispositions,
            final(self)@.acquisition_dispositions == old(self)@.acquisition_dispositions,
            total_satoshis(final(self)@.acquisitions) == total_satoshis(old(self)@.acquisitions),
            total_gaap_undisposed(final(self)@.acquisitions) == total_gaap_undisposed(
                old(self)@.acquisitions,
            ),
            total_tax_undisposed(final(self)@.acquisitions) == total_tax_undisposed(
                old(self)@.acquisitions,
            ),
            forall|w: Seq<char>|
                w != from@ && w != to@ ==> #[trigger] wallet_tax_undisposed(
                    final(self)@.acquisitions,
                    w,
                ) == wallet_tax_undisposed(old(self)@.acquisitions, w),
            r is Ok && from@ != to@ ==> wallet_tax_undisposed(final(self)@.acquisitions, from@)
                == wallet_tax_undisposed(old(self)@.acquisitions, from@) - satoshis,
            r is Ok && from@ != to@ ==> wallet_tax_undisposed(final(self)@.acquisitions, to@)
                == wallet_tax_undisposed(old(self)@.acquisitions, to@) + satoshis,
            from@ == to@ ==> wallet_tax_undisposed(final(self)@.acquisitions, from@)
                == wallet_tax_undisposed(old(self)@.acquisitions, from@),
            r is Ok ==> transfer_one_effect(old(self)@, final(self)@, from@, to@),
            from@ != to@ ==> transfer_fifo(
                old(self)@.acquisitions,
                final(self)@.acquisitions,
                from@,
                to@,
            ),
    {
        let available = self.wallet_tax_balance(from);
        if available < satoshis as i128 {
            return Err(
                LedgerError::InsufficientBalance {
                    wallet: from.clone(),
                    available_satoshis: available,
                    requested_satoshis: satoshis,
                },
            );
        }
        let ghost pre = self@;
        let mut remaining: i64 = satoshis;
        while remaining > 0
            invariant
                pre == old(self)@,
                self.inv(),
                remaining > 0 ==> self@.next_acquisition_id == pre.next_acquisition_id,
                self@.next_acquisition_id <= pre.next_acquisition_id + 1,
                pre.next_acquisition_id < u64::MAX,
                0 <= remaining <= satoshis,
                self@.dispositions == pre.dispositions,
                self@.acquisition_dispositions == pre.acquisition_dispositions,
                total_satoshis(self@.acquisitions) == total_satoshis(pre.acquisitions),
                total_gaap_undisposed(self@.acquisitions) == total_gaap_undisposed(
                    pre.acquisitions,
                ),
                total_tax_undisposed(self@.acquisitions) == total_tax_undisposed(
                    pre.acquisitions,
                ),
                forall|w: Seq<char>|
                    w != from@ && w != to@ ==> #[trigger] wallet_tax_undisposed(
                        self@.acquisitions,
                        w,
                    ) == wallet_tax_undisposed(pre.acquisitions, w),
                from@ != to@ ==> wallet_tax_undisposed(self@.acquisitions, from@)
                    == wallet_tax_undisposed(pre.acquisitions, from@) - (satoshis - remaining),
                from@ != to@ ==> wallet_tax_undisposed(self@.acquisitions, to@)
                    == wallet_tax_undisposed(pre.acquisitions, to@) + (satoshis - remaining),
                from@ == to@ ==> wallet_tax_undisposed(self@.acquisitions, from@)
                    == wallet_tax_undisposed(pre.acquisitions, from@),
                wallet_tax_undisposed(pre.acquisitions, from@) >= satoshis,
                pre.wf(),
                remaining > 0 ==> whole_moves_only(
                    pre.acquisitions,
                    self@.acquisitions,
                    from@,
                    to@,
                ),
                remaining == 0 ==> transfer_one_effect(pre, self@, from@, to@),
                from@ != to@ ==> transfer_fifo(
                    pre.acquisitions,
                    self@.acquisitions,
                    from@,
                    to@,
                ),
            decreases remaining,
        {
            let found = self.find_earliest_eligible(Tracker::Tax, Scope::Wallet, from, None);
            match found {
                None => {
                    proof {
                        Self::lemma_no_eligible_zero_balance(self@, from@);
                    }
                    // Unreachable: the balance check above guarantees a lot
                    // with tax-undisposed quantity remains in the wallet.
                    return Err(
                        LedgerError::InsufficientBalance {
                            wallet: from.clone(),
                            available_satoshis: 0,
                            requested_satoshis: remaining,
                        },
                    );
                },
                Some(ai) => {
                    let ghost st = self@;
                    let ghost lot = st.acquisitions[ai as int];
                    let lot_tax = self.acquisitions[ai].tax_undisposed_satoshis;
                    if lot_tax <= remaining {
                        self.set_wallet(ai, to.clone());
                        proof {
                            Self::lemma_move_sums(st, self@, ai as int, from@, to@, lot.wallet, to@);
                            Self::lemma_transfer_move_step(
                                pre,
                                st,
                                self@,
                                ai as int,
                                from@,
                                to@,
                            );
                        }
                        remaining = remaining - lot_tax;
                    } else {
                        self.split_lot(ai, remaining, to.clone());
                        proof {
                            Self::lemma_split_sums(st, self@, ai as int, from@, to@, remaining as int);
                            Self::lemma_transfer_split_step(
                                pre,
                                st,
                                self@,
                                ai as int,
                                from@,
                                to@,
                                remaining as int,
                            );
                        }
                        remaining = 0;
                    }
                },
            }
        }
        Ok(())
    }

    /// If no lot in the wallet is eligible, the wallet's balance is zero.
    proof fn lemma_no_eligible_zero_balance(l: crate::model::LedgerView, w: Seq<char>)
        requires
            l.wf(),
            forall|j: int|
                0 <= j < l.acquisitions.len() ==> !(eligible(
                    #[trigger] l.acquisitions[j],
                    Tracker::Tax,
                    Scope::Wallet,
                    w,
                ) && crate::store::cursor_lt(None, l.acquisitions[j])),
        ensures
            wallet_tax_undisposed(l.acquisitions, w) == 0,
    {
        let f = |a: AcquisitionView|
            if a.wallet == w {
                a.tax_undisposed_satoshis
            } else {
                0
            };
        assert forall|i: int| 0 <= i < l.acquisitions.len() implies 0 <= #[trigger] f(
            l.acquisitions[i],
        ) <= 0 by {
            assert(acq_wf(l.acquisitions[i]));
        }
        lemma_sum_map_bound(l.acquisitions, f, 0, 0);
    }

    /// Re-tagging one lot moves its tax quantity from one wallet sum to the
    /// other and changes no total.
    proof fn lemma_move_sums(
        st: crate::model::LedgerView,
        post: crate::model::LedgerView,
        ai: int,
        from: Seq<char>,
        to: Seq<char>,
        old_wallet: Seq<char>,
        new_wallet: Seq<char>,
    )
        requires
            0 <= ai < st.acquisitions.len(),
            st.acquisitions[ai].wallet == old_wallet,
            post.acquisitions == st.acquisitions.update(
                ai,
                crate::model::acq_with_wallet(st.acquisitions[ai], new_wallet),
            ),
        ensures
            total_satoshis(post.acquisitions) == total_satoshis(st.acquisitions),
            total_gaap_undisposed(post.acquisitions) == total_gaap_undisposed(st.acquisitions),
            total_tax_undisposed(post.acquisitions) == total_tax_undisposed(st.acquisitions),
            forall|w: Seq<char>| #[trigger]
                wallet_tax_undisposed(post.acquisitions, w) == wallet_tax_undisposed(
                    st.acquisitions,
                    w,
                ) + (if new_wallet == w && old_wallet != w {
                    st.acquisitions[ai].tax_undisposed_satoshis
                } else if old_wallet == w && new_wallet != w {
                    -st.acquisitions[ai].tax_undisposed_satoshis
                } else {
                    0
                }),
    {
        let na = crate::model::acq_with_wallet(st.acquisitions[ai], new_wallet);
        lemma_sum_map_update(st.acquisitions, |a: AcquisitionView| a.satoshis, ai, na);
        lemma_sum_map_update(
            st.acquisitions,
            |a: AcquisitionView| a.undisposed_satoshis,
            ai,
            na,
        );
        lemma_sum_map_update(
            st.acquisitions,
            |a: AcquisitionView| a.tax_undisposed_satoshis,
            ai,
            na,
        );
        assert forall|w: Seq<char>| #[trigger] wallet_tax_undisposed(post.acquisitions, w)
            == wallet_tax_undisposed(st.acquisitions, w) + (if new_wallet == w && old_wallet != w {
            st.acquisitions[ai].tax_undisposed_satoshis
        } else if old_wallet == w && new_wallet != w {
            -st.acquisitions[ai].tax_undisposed_satoshis
        } else {
            0
        }) by {
            lemma_sum_map_update(
                st.acquisitions,
                |a: AcquisitionView|
                    if a.wallet == w {
                        a.tax_undisposed_satoshis
                    } else {
                        0
                    },
                ai,
                na,
            );
        }
    }

    /// A proportional split inside a transfer conserves every total and
    /// moves exactly the transferred tax quantity between the wallet sums.
    proof fn lemma_split_sums(
        st: crate::model::LedgerView,
        post: crate::model::LedgerView,
        ai: int,
        from: Seq<char>,
        to: Seq<char>,
        tt: int,
    )
        requires
            0 <= ai < st.acquisitions.len(),
            st.acquisitions[ai].wallet == from,
            post.acquisitions == st.acquisitions.update(
                ai,
                crate::model::split_parent(
                    st.acquisitions[ai],
                    crate::rounding::rounded_div(
                        st.acquisitions[ai].satoshis * tt,
                        st.acquisitions[ai].tax_undisposed_satoshis,
                    ),
                    crate::rounding::rounded_div(
                        st.acquisitions[ai].undisposed_satoshis * tt,
                        st.acquisitions[ai].tax_undisposed_satoshis,
                    ),
                    tt,
                ),
            ).push(
                crate::model::split_child(
                    st.acquisitions[ai],
                    post.next_acquisition_id - 1,
                    crate::rounding::rounded_div(
                        st.acquisitions[ai].satoshis * tt,
                        st.acquisitions[ai].tax_undisposed_satoshis,
                    ),
                    crate::rounding::rounded_div(
                        st.acquisitions[ai].undisposed_satoshis * tt,
                        st.acquisitions[ai].tax_undisposed_satoshis,
                    ),
                    tt,
                    to,
                ),
            ),
        ensures
            total_satoshis(post.acquisitions) == total_satoshis(st.acquisitions),
            total_gaap_undisposed(post.acquisitions) == total_gaap_undisposed(st.acquisitions),
            total_tax_undisposed(post.acquisitions) == total_tax_undisposed(st.acquisitions),
            forall|w: Seq<char>| #[trigger]
                wallet_tax_undisposed(post.acquisitions, w) == wallet_tax_undisposed(
                    st.acquisitions,
                    w,
                ) + (if to == w && from != w {
                    tt
                } else if from == w && to != w {
                    -tt
                } else {
                    0
                }),
    {
        let lot = st.acquisitions[ai];
        let ts = crate::rounding::rounded_div(lot.satoshis * tt, lot.tax_undisposed_satoshis);
        let tg = crate::rounding::rounded_div(
            lot.undisposed_satoshis * tt,
            lot.tax_undisposed_satoshis,
        );
        let parent = crate::model::split_parent(lot, ts, tg, tt);
        let child = crate::model::split_child(lot, post.next_acquisition_id - 1, ts, tg, tt, to);
        let mid = st.acquisitions.update(ai, parent);
        lemma_sum_map_update(st.acquisitions, |a: AcquisitionView| a.satoshis, ai, parent);
        lemma_sum_map_push(mid, |a: AcquisitionView| a.satoshis, child);
        lemma_sum_map_update(
            st.acquisitions,
            |a: AcquisitionView| a.undisposed_satoshis,
            ai,
            parent,
        );
        lemma_sum_map_push(mid, |a: AcquisitionView| a.undisposed_satoshis, child);
        lemma_sum_map_update(
            st.acquisitions,
            |a: AcquisitionView| a.tax_undisposed_satoshis,
            ai,
            parent,
        );
        lemma_sum_map_push(mid, |a: AcquisitionView| a.tax_undisposed_satoshis, child);
        assert forall|w: Seq<char>| #[trigger] wallet_tax_undisposed(post.acquisitions, w)
            == wallet_tax_undisposed(st.acquisitions, w) + (if to == w && from != w {
            tt
        } else if from == w && to != w {
            -tt
        } else {
            0
        }) by {
            let f = |a: AcquisitionView|
                if a.wallet == w {
                    a.tax_undisposed_satoshis
                } else {
                    0
                };
            lemma_sum_map_update(st.acquisitions, f, ai, parent);
            lemma_sum_map_push(mid, f, child);
        }
    }

    /// Process a batch of transfer requests atomically, strictly in
    /// timestamp order (ties keep input order).  A failure on any request
    /// rolls the whole batch back: the ledger is left exactly as it was.
    pub fn transfer(&mut self, requests: &Vec<TransferRecord>) -> (r: Result<(), LedgerError>)
        requires
            old(self).inv(),
            old(self)@.next_acquisition_id + requests@.len() < u64::MAX,
        ensures
            final(self).inv(),
            r is Err ==> final(self)@ == old(self)@,
            (r matches Err(LedgerError::NonPositiveTransferAmount { .. })) <==> (exists|k: int|
                0 <= k < requests@.len() && (#[trigger] requests@[k]).satoshis <= 0),
            r is Err ==> (r matches Err(LedgerError::NonPositiveTransferAmount { .. })) || (
            r matches Err(LedgerError::InsufficientBalance { .. })),
            final(self)@.dispositions == old(self)@.dispositions,
            final(self)@.acquisition_dispositions == old(self)@.acquisition_dispositions,
            total_satoshis(final(self)@.acquisitions) == total_satoshis(old(self)@.acquisitions),
            total_gaap_undisposed(final(self)@.acquisitions) == total_gaap_undisposed(
                old(self)@.acquisitions,
            ),
            total_tax_undisposed(final(self)@.acquisitions) == total_tax_undisposed(
                old(self)@.acquisitions,
            ),
            r is Ok <==> transfer_feasible(old(self)@, requests@),
            r is Ok ==> forall|w: Seq<char>| #[trigger] wallet_tax_undisposed(
                final(self)@.acquisitions,
                w,
            ) == wallet_tax_undisposed(old(self)@.acquisitions, w) + net_wallet_delta(
                requests@,
                w,
            ),
    {
        broadcast use vstd::set::group_set_axioms;

        let mut k: usize = 0;
        while k < requests.len()
            invariant
                self.inv(),
                self@ == old(self)@,
                0 <= k <= requests@.len(),
                forall|i: int| 0 <= i < k ==> (#[trigger] requests@[i]).satoshis > 0,
            decreases requests@.len() - k,
        {
            if requests[k].satoshis <= 0 {
                return Err(LedgerError::NonPositiveTransferAmount { index: k });
            }
            k = k + 1;
        }
        let mut work = self.clone();
        let mut cursor: Option<(i64, usize)> = None;
        let mut step: usize = 0;
        proof {
            assert(done_request_set(requests@, cursor) =~= Set::<int>::empty());
            assert forall|w: Seq<char>| #[trigger] wallet_tax_undisposed(work@.acquisitions, w)
                == wallet_tax_undisposed(self@.acquisitions, w) + processed_net(
                requests@,
                cursor,
                w,
            ) by {
                Self::lemma_processed_net_none(requests@, w);
            }
        }
        let mut finished = false;
        while step < requests.len() && !finished
            invariant
                self.inv(),
                self@ == old(self)@,
                work.inv(),
                finished ==> forall|j: int|
                    0 <= j < requests@.len() ==> #[trigger] req_done(requests@, j, cursor),
                forall|i: int|
                    0 <= i < requests@.len() ==> (#[trigger] requests@[i]).satoshis > 0,
                work@.next_acquisition_id <= self@.next_acquisition_id + step,
                self@.next_acquisition_id + requests@.len() < u64::MAX,
                0 <= step <= requests@.len(),
                work@.dispositions == self@.dispositions,
                work@.acquisition_dispositions == self@.acquisition_dispositions,
                total_satoshis(work@.acquisitions) == total_satoshis(self@.acquisitions),
                total_gaap_undisposed(work@.acquisitions) == total_gaap_undisposed(
                    self@.acquisitions,
                ),
                total_tax_undisposed(work@.acquisitions) == total_tax_undisposed(
                    self@.acquisitions,
                ),
                done_request_set(requests@, cursor).finite(),
                done_request_set(requests@, cursor).len() == step,
                forall|w: Seq<char>| #[trigger] wallet_tax_undisposed(work@.acquisitions, w)
                    == wallet_tax_undisposed(self@.acquisitions, w) + processed_net(
                    requests@,
                    cursor,
                    w,
                ),
                forall|k: int|
                    0 <= k < requests@.len() && req_done(requests@, k, cursor)
                        ==> wallet_tax_undisposed(
                        self@.acquisitions,
                        (#[trigger] requests@[k]).from@,
                    ) + net_before(requests@, k, requests@[k].from@) >= requests@[k].satoshis,
            decreases requests@.len() - step + (if finished {
                0int
            } else {
                1int
            }),
        {
            broadcast use vstd::set::group_set_axioms;

            let found = find_next_request(requests, cursor);
            match found {
                None => {
                    proof {
                        Self::lemma_all_requests_done(requests@, cursor);
                    }
                    finished = true;
                },
                Some(m) => {
                    let req = &requests[m];
                    let ghost stw = work@;
                    let ghost oldc = cursor;
                    let res = work.transfer_one(&req.from, &req.to, req.satoshis);
                    proof {
                        Self::lemma_transfer_batch_step(
                            self@,
                            stw,
                            work@,
                            requests@,
                            oldc,
                            Some((req.date, m)),
                            m,
                            res is Ok,
                        );
                    }
                    match res {
                        Err(e) => {
                            return Err(e);
                        },
                        Ok(()) => {},
                    }
                    cursor = Some((req.date, m));
                    proof {
                        assert(done_request_set(requests@, cursor) =~= done_request_set(
                            requests@,
                            oldc,
                        ).insert(m as int));
                        assert(!done_request_set(requests@, oldc).contains(m as int));
                        vstd::set_lib::lemma_int_range(0, requests@.len() as int);
                        vstd::set_lib::lemma_len_subset(
                            done_request_set(requests@, cursor),
                            vstd::set_lib::set_int_range(0, requests@.len() as int),
                        );
                    }
                    step = step + 1;
                },
            }
        }
        proof {
            assert forall|k: int| 0 <= k < requests@.len() implies #[trigger] req_done(
                requests@,
                k,
                cursor,
            ) by {
                if !finished {
                    vstd::set_lib::lemma_int_range(0, requests@.len() as int);
                    vstd::set_lib::lemma_len_subset(
                        done_request_set(requests@, cursor),
                        vstd::set_lib::set_int_range(0, requests@.len() as int),
                    );
                    vstd::set_lib::lemma_subset_equality(
                        done_request_set(requests@, cursor),
                        vstd::set_lib::set_int_range(0, requests@.len() as int),
                    );
                    assert(done_request_set(requests@, cursor).contains(k));
                }
            }
            assert(transfer_feasible(self@, requests@));
            assert forall|w: Seq<char>| #[trigger] wallet_tax_undisposed(work@.acquisitions, w)
                == wallet_tax_undisposed(self@.acquisitions, w) + net_wallet_delta(
                requests@,
                w,
            ) by {
                crate::sums::lemma_sum_map_idx_value(
                    requests@,
                    |j: int, r: TransferRecord|
                        if req_done(requests@, j, cursor) {
                            request_delta(r, w)
                        } else {
                            0
                        },
                    |r: TransferRecord| request_delta(r, w),
                );
            }
        }
        *self = work;
        Ok(())
    }

    /// When nothing follows the cursor, every request has been processed.
    proof fn lemma_all_requests_done(
        requests: Seq<TransferRecord>,
        cursor: Option<(i64, usize)>,
    )
        requires
            forall|j: int| 0 <= j < requests.len() ==> !request_after(requests, j, cursor),
        ensures
            forall|j: int| 0 <= j < requests.len() ==> #[trigger] req_done(requests, j, cursor),
            done_request_set(requests, cursor) == vstd::set_lib::set_int_range(
                0,
                requests.len() as int,
            ),
    {
        assert forall|j: int| 0 <= j < requests.len() implies #[trigger] req_done(
            requests,
            j,
            cursor,
        ) by {
            assert(!request_after(requests, j, cursor));
        }
        assert(done_request_set(requests, cursor) =~= vstd::set_lib::set_int_range(
            0,
            requests.len() as int,
        ));
    }
}

/// Index of the next transfer request in (timestamp, position) order
/// strictly after the cursor, or `None` when none remains.
fn find_next_request(requests: &Vec<TransferRecord>, cursor: Option<(i64, usize)>) -> (r: Option<
    usize,
>)
    ensures
        match r {
            Some(m) => {
                &&& 0 <= m < requests@.len()
                &&& request_after(requests@, m as int, cursor)
                &&& forall|j: int|
                    0 <= j < requests@.len() && j != m && request_after(requests@, j, cursor)
                        ==> requests@[m as int].date < (#[trigger] requests@[j]).date || (
                    requests@[m as int].date == requests@[j].date && m < j)
            },
            None => forall|j: int|
                0 <= j < requests@.len() ==> !request_after(requests@, j, cursor),
        },
{
    let mut best: Option<usize> = None;
    let mut i: usize = 0;
    while i < requests.len()
        invariant
            0 <= i <= requests@.len(),
            match best {
                Some(m) => {
                    &&& 0 <= m < i
                    &&& request_after(requests@, m as int, cursor)
                    &&& forall|j: int|
                        0 <= j < i && j != m && request_after(requests@, j, cursor)
                            ==> requests@[m as int].date < (#[trigger] requests@[j]).date || (
                        requests@[m as int].date == requests@[j].date && m < j)
                },
                None => forall|j: int| 0 <= j < i ==> !request_after(requests@, j, cursor),
            },
        decreases requests@.len() - i,
    {
        let after = match cursor {
            None => true,
            Some((cd, ci)) => requests[i].date > cd || (requests[i].date == cd && i > ci),
        };
        if after {
            match best {
                None => {
                    best = Some(i);
                },
                Some(m) => {
                    if requests[i].date < requests[m].date {
                        best = Some(i);
                    }
                },
            }
        }
        i = i + 1;
    }
    best
}

/// Whether request `j` lies strictly after the processing cursor in
/// (timestamp, position) order.
pub open spec fn request_after(
    requests: Seq<TransferRecord>,
    j: int,
    cursor: Option<(i64, usize)>,
) -> bool {
    match cursor {
        None => true,
        Some(c) => requests[j].date > c.0 || (requests[j].date == c.0 && j > c.1),
    }
}

impl Ledger {
    /// Re-tagging the earliest available source lot keeps the whole-move
    /// shape and the FIFO order of consumption.
    proof fn lemma_transfer_move_step(
        pre: crate::model::LedgerView,
        st: crate::model::LedgerView,
        post: crate::model::LedgerView,
        ai: int,
        from: Seq<char>,
        to: Seq<char>,
    )
        requires
            pre.wf(),
            whole_moves_only(pre.acquisitions, st.acquisitions, from, to),
            from != to ==> transfer_fifo(pre.acquisitions, st.acquisitions, from, to),
            0 <= ai < st.acquisitions.len(),
            st.acquisitions[ai].wallet == from,
            st.acquisitions[ai].tax_undisposed_satoshis > 0,
            forall|j: int|
                0 <= j < st.acquisitions.len() && j != ai && (#[trigger] st.acquisitions[j]).wallet
                    == from && st.acquisitions[j].tax_undisposed_satoshis > 0
                    ==> crate::model::acq_key_lt(st.acquisitions[ai], st.acquisitions[j]),
            post.acquisitions == st.acquisitions.update(
                ai,
                crate::model::acq_with_wallet(st.acquisitions[ai], to),
            ),
        ensures
            whole_moves_only(pre.acquisitions, post.acquisitions, from, to),
            from != to ==> transfer_fifo(pre.acquisitions, post.acquisitions, from, to),
    {
        assert forall|j: int| 0 <= j < pre.acquisitions.len() implies #[trigger] post.acquisitions[j]
            == pre.acquisitions[j] || (pre.acquisitions[j].wallet == from && post.acquisitions[j]
            == crate::model::acq_with_wallet(pre.acquisitions[j], to)) by {
            if j == ai {
                if st.acquisitions[ai] == pre.acquisitions[ai] {
                } else {
                    assert(st.acquisitions[ai] == crate::model::acq_with_wallet(
                        pre.acquisitions[ai],
                        to,
                    ));
                    assert(post.acquisitions[ai] =~= crate::model::acq_with_wallet(
                        pre.acquisitions[ai],
                        to,
                    ));
                }
            }
        }
        if from != to {
            assert forall|i: int, j: int|
                #![trigger pre.acquisitions[i], pre.acquisitions[j]]
                0 <= i < pre.acquisitions.len() && 0 <= j < pre.acquisitions.len()
                    && pre.acquisitions[i].wallet == from && pre.acquisitions[j].wallet == from
                    && crate::model::acq_key_lt(pre.acquisitions[i], pre.acquisitions[j])
                    && post.acquisitions[j] != pre.acquisitions[j] implies post.acquisitions[i].wallet
                == to || pre.acquisitions[i].tax_undisposed_satoshis == 0 by {
                if i == ai {
                    assert(post.acquisitions[ai].wallet == to);
                } else {
                    assert(post.acquisitions[i] == st.acquisitions[i]);
                    if j == ai {
                        if st.acquisitions[i] == pre.acquisitions[i] {
                            assert(crate::model::acq_wf(pre.acquisitions[i]));
                            if pre.acquisitions[i].tax_undisposed_satoshis > 0 {
                                assert(crate::model::acq_key_lt(
                                    st.acquisitions[ai],
                                    st.acquisitions[i],
                                ));
                                assert(st.acquisitions[ai].acquisition_date
                                    == pre.acquisitions[ai].acquisition_date
                                    && st.acquisitions[ai].id == pre.acquisitions[ai].id);
                                assert(false);
                            }
                        } else {
                            assert(st.acquisitions[i] == crate::model::acq_with_wallet(
                                pre.acquisitions[i],
                                to,
                            ));
                        }
                    } else {
                        if st.acquisitions[j] != pre.acquisitions[j] {
                            assert(st.acquisitions[i].wallet == to
                                || pre.acquisitions[i].tax_undisposed_satoshis == 0);
                        } else {
                            assert(post.acquisitions[j] == pre.acquisitions[j]);
                        }
                    }
                }
            }
        }
    }

    /// Splitting the earliest available source lot finishes the transfer
    /// with the split shape and keeps the FIFO order of consumption.
    proof fn lemma_transfer_split_step(
        pre: crate::model::LedgerView,
        st: crate::model::LedgerView,
        post: crate::model::LedgerView,
        ai: int,
        from: Seq<char>,
        to: Seq<char>,
        tt: int,
    )
        requires
            pre.wf(),
            whole_moves_only(pre.acquisitions, st.acquisitions, from, to),
            from != to ==> transfer_fifo(pre.acquisitions, st.acquisitions, from, to),
            0 <= ai < st.acquisitions.len(),
            st.acquisitions[ai].wallet == from,
            0 < tt < st.acquisitions[ai].tax_undisposed_satoshis,
            st.next_acquisition_id == pre.next_acquisition_id,
            forall|j: int|
                0 <= j < st.acquisitions.len() && j != ai && (#[trigger] st.acquisitions[j]).wallet
                    == from && st.acquisitions[j].tax_undisposed_satoshis > 0
                    ==> crate::model::acq_key_lt(st.acquisitions[ai], st.acquisitions[j]),
            post.acquisitions == st.acquisitions.update(
                ai,
                crate::model::split_parent(
                    st.acquisitions[ai],
                    crate::rounding::rounded_div(
                        st.acquisitions[ai].satoshis * tt,
                        st.acquisitions[ai].tax_undisposed_satoshis,
                    ),
                    crate::rounding::rounded_div(
                        st.acquisitions[ai].undisposed_satoshis * tt,
                        st.acquisitions[ai].tax_undisposed_satoshis,
                    ),
                    tt,
                ),
            ).push(
                crate::model::split_child(
                    st.acquisitions[ai],
                    st.next_acquisition_id,
                    crate::rounding::rounded_div(
                        st.acquisitions[ai].satoshis * tt,
                        st.acquisitions[ai].tax_undisposed_satoshis,
                    ),
                    crate::rounding::rounded_div(
                        st.acquisitions[ai].undisposed_satoshis * tt,
                        st.acquisitions[ai].tax_undisposed_satoshis,
                    ),
                    tt,
                    to,
                ),
            ),
        ensures
            transfer_one_effect(pre, post, from, to),
            from != to ==> transfer_fifo(pre.acquisitions, post.acquisitions, from, to),
    {
        if st.acquisitions[ai] != pre.acquisitions[ai] {
            assert(st.acquisitions[ai] == crate::model::acq_with_wallet(
                pre.acquisitions[ai],
                to,
            ));
            assert(pre.acquisitions[ai].wallet == from);
            assert(to == from);
            assert(st.acquisitions[ai] =~= pre.acquisitions[ai]);
        }
        assert(st.acquisitions[ai] == pre.acquisitions[ai]);
        assert(split_finish(pre, post, from, to, ai));
        assert(transfer_one_effect(pre, post, from, to));
        if from != to {
            assert forall|i: int, j: int|
                #![trigger pre.acquisitions[i], pre.acquisitions[j]]
                0 <= i < pre.acquisitions.len() && 0 <= j < pre.acquisitions.len()
                    && pre.acquisitions[i].wallet == from && pre.acquisitions[j].wallet == from
                    && crate::model::acq_key_lt(pre.acquisitions[i], pre.acquisitions[j])
                    && post.acquisitions[j] != pre.acquisitions[j] implies post.acquisitions[i].wallet
                == to || pre.acquisitions[i].tax_undisposed_satoshis == 0 by {
                if i == ai {
                    if st.acquisitions[j] != pre.acquisitions[j] {
                        assert(st.acquisitions[ai].wallet == to
                            || pre.acquisitions[ai].tax_undisposed_satoshis == 0);
                        assert(false);
                    } else {
                        assert(post.acquisitions[j] == st.acquisitions[j]);
                        assert(false);
                    }
                } else {
                    assert(post.acquisitions[i] == st.acquisitions[i]);
                    if j == ai {
                        if st.acquisitions[i] == pre.acquisitions[i] {
                            assert(crate::model::acq_wf(pre.acquisitions[i]));
                            if pre.acquisitions[i].tax_undisposed_satoshis > 0 {
                                assert(crate::model::acq_key_lt(
                                    st.acquisitions[ai],
                                    st.acquisitions[i],
                                ));
                                assert(false);
                            }
                        } else {
                            assert(st.acquisitions[i] == crate::model::acq_with_wallet(
                                pre.acquisitions[i],
                                to,
                            ));
                        }
                    } else {
                        if st.acquisitions[j] != pre.acquisitions[j] {
                            assert(st.acquisitions[i].wallet == to
                                || pre.acquisitions[i].tax_undisposed_satoshis == 0);
                        } else {
                            assert(post.acquisitions[j] == pre.acquisitions[j]);
                        }
                    }
                }
            }
        }
    }
}

impl Ledger {
    /// With no cursor, nothing is processed and nothing has moved.
    proof fn lemma_processed_net_none(requests: Seq<TransferRecord>, w: Seq<char>)
        ensures
            processed_net(requests, None, w) == 0,
    {
        crate::sums::lemma_sum_map_idx_value(
            requests,
            |j: int, r: TransferRecord|
                if req_done(requests, j, None) {
                    request_delta(r, w)
                } else {
                    0
                },
            |r: TransferRecord| 0,
        );
        lemma_sum_map_bound(requests, |r: TransferRecord| 0, 0, 0);
    }

    /// One request processed at the cursor advances the batch bookkeeping:
    /// the cursor admits exactly the old requests plus this one, wallet
    /// sums move by this request's delta, a successful request was owed
    /// success against the batch's starting state, and a failing one
    /// refutes the feasibility of the whole batch.
    #[verifier::rlimit(100)]
    proof fn lemma_transfer_batch_step(
        base: crate::model::LedgerView,
        stw: crate::model::LedgerView,
        postw: crate::model::LedgerView,
        requests: Seq<TransferRecord>,
        oldc: Option<(i64, usize)>,
        newc: Option<(i64, usize)>,
        m: usize,
        ok: bool,
    )
        requires
            0 <= m < requests.len(),
            newc == Some((requests[m as int].date, m)),
            !req_done(requests, m as int, oldc),
            forall|k: int|
                0 <= k < requests.len() && k != m && !req_done(requests, k, oldc)
                    ==> requests[m as int].date < (#[trigger] requests[k]).date || (
                requests[m as int].date == requests[k].date && m < k),
            forall|w: Seq<char>| #[trigger] wallet_tax_undisposed(stw.acquisitions, w)
                == wallet_tax_undisposed(base.acquisitions, w) + processed_net(requests, oldc, w),
            forall|k: int|
                0 <= k < requests.len() && req_done(requests, k, oldc) ==> wallet_tax_undisposed(
                    base.acquisitions,
                    (#[trigger] requests[k]).from@,
                ) + net_before(requests, k, requests[k].from@) >= requests[k].satoshis,
            ok <==> wallet_tax_undisposed(stw.acquisitions, requests[m as int].from@)
                >= requests[m as int].satoshis,
            !ok ==> postw == stw,
            forall|w: Seq<char>|
                w != requests[m as int].from@ && w != requests[m as int].to@
                    ==> #[trigger] wallet_tax_undisposed(postw.acquisitions, w)
                    == wallet_tax_undisposed(stw.acquisitions, w),
            ok && requests[m as int].from@ != requests[m as int].to@ ==> wallet_tax_undisposed(
                postw.acquisitions,
                requests[m as int].from@,
            ) == wallet_tax_undisposed(stw.acquisitions, requests[m as int].from@)
                - requests[m as int].satoshis,
            ok && requests[m as int].from@ != requests[m as int].to@ ==> wallet_tax_undisposed(
                postw.acquisitions,
                requests[m as int].to@,
            ) == wallet_tax_undisposed(stw.acquisitions, requests[m as int].to@)
                + requests[m as int].satoshis,
            requests[m as int].from@ == requests[m as int].to@ ==> wallet_tax_undisposed(
                postw.acquisitions,
                requests[m as int].from@,
            ) == wallet_tax_undisposed(stw.acquisitions, requests[m as int].from@),
        ensures
            forall|k: int|
                0 <= k < requests.len() ==> (req_done(requests, k, newc) <==> (#[trigger] req_done(
                    requests,
                    k,
                    oldc,
                ) || k == m)),
            ok ==> forall|w: Seq<char>| #[trigger] wallet_tax_undisposed(postw.acquisitions, w)
                == wallet_tax_undisposed(base.acquisitions, w) + processed_net(requests, newc, w),
            ok ==> forall|k: int|
                0 <= k < requests.len() && req_done(requests, k, newc) ==> wallet_tax_undisposed(
                    base.acquisitions,
                    (#[trigger] requests[k]).from@,
                ) + net_before(requests, k, requests[k].from@) >= requests[k].satoshis,
            !ok ==> !transfer_feasible(base, requests),
    {
        assert forall|k: int| 0 <= k < requests.len() implies (req_done(requests, k, newc) <==> (
        #[trigger] req_done(requests, k, oldc) || k == m)) by {
            if k == m {
                assert(req_done(requests, k, newc));
            } else if req_done(requests, k, oldc) {
                let c = oldc.unwrap();
                assert(requests[k].date < c.0 || (requests[k].date == c.0 && k <= c.1 as int));
                assert(requests[m as int].date > c.0 || (requests[m as int].date == c.0 && m
                    > c.1));
                assert(req_done(requests, k, newc));
            } else {
                assert(requests[m as int].date < requests[k].date || (requests[m as int].date
                    == requests[k].date && m < k));
                assert(!req_done(requests, k, newc));
            }
        }
        assert forall|j: int| 0 <= j < requests.len() implies (req_done(requests, j, oldc) <==> 
        #[trigger] request_before(requests, j, m as int)) by {
            if req_done(requests, j, oldc) {
                let c = oldc.unwrap();
                assert(requests[j].date < c.0 || (requests[j].date == c.0 && j <= c.1 as int));
                assert(requests[m as int].date > c.0 || (requests[m as int].date == c.0 && m
                    > c.1));
            } else if j != m {
                assert(requests[m as int].date < requests[j].date || (requests[m as int].date
                    == requests[j].date && m < j));
            }
        }
        let fr = requests[m as int].from@;
        assert forall|w: Seq<char>| #[trigger] net_before(requests, m as int, w) == processed_net(
            requests,
            oldc,
            w,
        ) by {
            crate::sums::lemma_sum_map_idx_congruence(
                requests,
                |j: int, r: TransferRecord|
                    if request_before(requests, j, m as int) {
                        request_delta(r, w)
                    } else {
                        0
                    },
                |j: int, r: TransferRecord|
                    if req_done(requests, j, oldc) {
                        request_delta(r, w)
                    } else {
                        0
                    },
            );
        }
        if !ok {
            assert(wallet_tax_undisposed(base.acquisitions, fr) + net_before(
                requests,
                m as int,
                fr,
            ) < requests[m as int].satoshis);
            assert(!transfer_feasible(base, requests));
        } else {
            assert forall|w: Seq<char>| #[trigger] wallet_tax_undisposed(postw.acquisitions, w)
                == wallet_tax_undisposed(base.acquisitions, w) + processed_net(
                requests,
                newc,
                w,
            ) by {
                crate::sums::lemma_sum_map_idx_step(
                    requests,
                    |j: int, r: TransferRecord|
                        if req_done(requests, j, oldc) {
                            request_delta(r, w)
                        } else {
                            0
                        },
                    |j: int, r: TransferRecord|
                        if req_done(requests, j, newc) {
                            request_delta(r, w)
                        } else {
                            0
                        },
                    m as int,
                    request_delta(requests[m as int], w),
                );
                if w != requests[m as int].from@ && w != requests[m as int].to@ {
                    assert(request_delta(requests[m as int], w) == 0);
                } else if requests[m as int].from@ == requests[m as int].to@ {
                    assert(request_delta(requests[m as int], w) == 0);
                }
            }
            assert forall|k: int|
                0 <= k < requests.len() && req_done(requests, k, newc) implies wallet_tax_undisposed(
                base.acquisitions,
                (#[trigger] requests[k]).from@,
            ) + net_before(requests, k, requests[k].from@) >= requests[k].satoshis by {
                if k == m {
                    assert(wallet_tax_undisposed(stw.acquisitions, fr) == wallet_tax_undisposed(
                        base.acquisitions,
                        fr,
                    ) + processed_net(requests, oldc, fr));
                    assert(net_before(requests, m as int, fr) == processed_net(
                        requests,
                        oldc,
                        fr,
                    ));
                }
            }
        }
    }
}

} // verus!
