//! The wallet allocation tool: one-time bulk assignment of existing lots
//! into wallet buckets, in FIFO order, splitting a lot equally on both
//! trackers when it straddles a bucket boundary.
//!
//! Allocation assumes no prior tracker divergence: it assigns one new
//! undisposed quantity to both trackers at once, so it refuses to run if
//! any lot's GAAP and tax trackers differ.
use vstd::prelude::*;

verus! {

use crate::errors::LedgerError;
use crate::model::{
    acq_wf,
    total_gaap_undisposed,
    total_satoshis,
    total_tax_undisposed,
    AcquisitionView,
    Scope,
    Tracker,
    MAX_SATOSHIS,
};
use crate::store::Ledger;
use crate::sums::{lemma_sum_map_push, lemma_sum_map_take_all, lemma_sum_map_take_succ, lemma_sum_map_update, sum_map};

/// One allocation bucket: a wallet tag and the quantity assigned to it.
#[derive(Debug)]
pub struct BucketRecord {
    pub wallet: String,
    pub satoshis: i64,
}

/// The total quantity the buckets ask for.
pub open spec fn bucket_total_satoshis(buckets: Seq<BucketRecord>) -> int {
    sum_map(buckets, |b: BucketRecord| b.satoshis as int)
}

/// Whether the bucket total matches the total undisposed quantity within
/// the tolerance of one unit per bucket, which accounts for per-bucket
/// rounding of fractional-unit inputs.
pub open spec fn buckets_within_tolerance(l: crate::model::LedgerView, buckets: Seq<BucketRecord>) -> bool {
    -(buckets.len() as int) <= bucket_total_satoshis(buckets) - total_gaap_undisposed(
        l.acquisitions,
    ) <= buckets.len() as int
}

/// The undisposed supply not yet walked: the GAAP-undisposed quantity of
/// the lots whose FIFO key lies strictly after the cursor.
pub open spec fn unassigned_supply(
    acqs: Seq<AcquisitionView>,
    cursor: Option<(i64, u64)>,
) -> int {
    sum_map(
        acqs,
        |a: AcquisitionView|
            if crate::store::cursor_lt(cursor, a) {
                a.undisposed_satoshis
            } else {
                0
            },
    )
}

/// The supply remaining in front of bucket `b`: the total undisposed
/// quantity minus what the buckets before `b` took.
pub open spec fn remaining_before(buckets: Seq<BucketRecord>, supply: int, b: int) -> int
    decreases b,
{
    if b <= 0 {
        supply
    } else {
        let rem = remaining_before(buckets, supply, b - 1);
        let cap = if buckets[b - 1].satoshis as int > 0 {
            buckets[b - 1].satoshis as int
        } else {
            0
        };
        rem - (if cap <= rem {
            cap
        } else {
            rem
        })
    }
}

/// The quantity bucket `b` receives: its requested amount, clamped below
/// by nothing being owed for a non-positive request and above by what the
/// earlier buckets left over.
pub open spec fn bucket_assigned(buckets: Seq<BucketRecord>, supply: int, b: int) -> int {
    let rem = remaining_before(buckets, supply, b);
    let cap = if buckets[b].satoshis as int > 0 {
        buckets[b].satoshis as int
    } else {
        0
    };
    if cap <= rem {
        cap
    } else {
        rem
    }
}

/// Bucket wallets that collide with nothing: pairwise distinct, distinct
/// from every pre-existing lot's wallet, and not the residual tag.  Under
/// these conditions each bucket's final undisposed sum is exactly what was
/// assigned to it.
pub open spec fn bucket_wallets_fresh(
    pre_acqs: Seq<AcquisitionView>,
    buckets: Seq<BucketRecord>,
) -> bool {
    &&& forall|b1: int, b2: int|
        #![trigger buckets[b1], buckets[b2]]
        0 <= b1 < b2 < buckets.len() ==> buckets[b1].wallet@ != buckets[b2].wallet@
    &&& forall|b: int, j: int|
        #![trigger buckets[b], pre_acqs[j]]
        0 <= b < buckets.len() && 0 <= j < pre_acqs.len() ==> buckets[b].wallet@
            != pre_acqs[j].wallet
    &&& forall|b: int| 0 <= b < buckets.len() ==> (#[trigger] buckets[b]).wallet@ != "unallocated"@
}

/// Whether some lot with GAAP-undisposed quantity left has diverged
/// trackers.  Allocation must fail, touching nothing, when one exists.
pub open spec fn has_divergent_lot(acqs: Seq<AcquisitionView>) -> bool {
    exists|i: int|
        0 <= i < acqs.len() && (#[trigger] acqs[i]).undisposed_satoshis > 0
            && acqs[i].undisposed_satoshis != acqs[i].tax_undisposed_satoshis
}

impl Ledger {
    /// The total GAAP-undisposed quantity over all lots.
    pub fn total_gaap_balance(&self) -> (r: i128)
        requires
            self@.wf(),
        ensures
            r == total_gaap_undisposed(self@.acquisitions),
    {
        let ghost f = |a: AcquisitionView| a.undisposed_satoshis;
        let mut total: i128 = 0;
        let mut i: usize = 0;
        proof {
            assert(self@.acquisitions.take(0) =~= Seq::<AcquisitionView>::empty());
        }
        while i < self.acquisitions.len()
            invariant
                self@.wf(),
                self@.acquisitions.len() == self.acquisitions.len(),
                0 <= i <= self.acquisitions.len(),
                total == sum_map(self@.acquisitions.take(i as int), f),
                0 <= total <= i * (MAX_SATOSHIS as int),
                f == (|a: AcquisitionView| a.undisposed_satoshis),
            decreases self.acquisitions.len() - i,
        {
            proof {
                assert forall|k: int| 0 <= k < self@.acquisitions.take(i as int).len() implies 0
                    <= #[trigger] f(self@.acquisitions.take(i as int)[k]) <= MAX_SATOSHIS as int by {
                    assert(self@.acquisitions.take(i as int)[k] == self@.acquisitions[k]);
                }
                lemma_sum_map_take_succ(self@.acquisitions, f, i as int);
                assert((i + 1) * (MAX_SATOSHIS as int) == i * (MAX_SATOSHIS as int)
                    + MAX_SATOSHIS as int) by (nonlinear_arith);
                assert(i * (MAX_SATOSHIS as int) <= 0xffff_ffff_ffff_ffffi128 * (
                MAX_SATOSHIS as int)) by (nonlinear_arith)
                    requires
                        0 <= i <= 0xffff_ffff_ffff_ffffi128,
                ;
            }
            total = total + self.acquisitions[i].undisposed_satoshis as i128;
            i = i + 1;
        }
        proof {
            lemma_sum_map_take_all(self@.acquisitions, f);
        }
        total
    }

    /// Index of a lot with positive GAAP-undisposed quantity whose trackers
    /// have diverged, if one exists.
    fn find_divergent_lot(&self) -> (r: Option<usize>)
        ensures
            match r {
                Some(i) => 0 <= i < self@.acquisitions.len()
                    && self@.acquisitions[i as int].undisposed_satoshis > 0
                    && self@.acquisitions[i as int].undisposed_satoshis
                    != self@.acquisitions[i as int].tax_undisposed_satoshis,
                None => !has_divergent_lot(self@.acquisitions),
            },
    {
        let mut i: usize = 0;
        while i < self.acquisitions.len()
            invariant
                self@.acquisitions.len() == self.acquisitions.len(),
                0 <= i <= self.acquisitions.len(),
                forall|j: int|
                    0 <= j < i ==> !((#[trigger] self@.acquisitions[j]).undisposed_satoshis > 0
                        && self@.acquisitions[j].undisposed_satoshis
                        != self@.acquisitions[j].tax_undisposed_satoshis),
            decreases self.acquisitions.len() - i,
        {
            let a = &self.acquisitions[i];
            if a.undisposed_satoshis > 0 && a.undisposed_satoshis != a.tax_undisposed_satoshis {
                return Some(i);
            }
            i = i + 1;
        }
        None
    }

    /// Allocate the undisposed lots into the given buckets, in FIFO order,
    /// assigning whole lots and splitting a lot equally on both trackers at
    /// a bucket boundary; the split-off remainder waits under the
    /// `unallocated` tag.  Pre-existing dispositions are tagged `legacy`.
    ///
    /// Fails, mutating nothing, exactly when some lot's trackers have
    /// diverged or the bucket total strays from the total undisposed
    /// quantity by more than one unit per bucket.  On success, when the
    /// bucket wallets are fresh, each bucket wallet ends up holding exactly
    /// the quantity assigned to its bucket: the requested amount, clamped
    /// to what the earlier buckets left over.
    #[verifier::rlimit(100)]
    pub fn allocate(&mut self, buckets: &Vec<BucketRecord>) -> (r: Result<(), LedgerError>)
        requires
            old(self).inv(),
            old(self)@.next_acquisition_id + buckets@.len() < u64::MAX,
        ensures
            final(self).inv(),
            r is Err ==> final(self)@ == old(self)@,
            (r matches Err(LedgerError::DivergentTrackers { .. })) <==> has_divergent_lot(
                old(self)@.acquisitions,
            ),
            (r matches Err(LedgerError::BucketSumMismatch { .. })) <==> !has_divergent_lot(
                old(self)@.acquisitions,
            ) && !buckets_within_tolerance(old(self)@, buckets@),
            r is Ok <==> !has_divergent_lot(old(self)@.acquisitions) && buckets_within_tolerance(
                old(self)@,
                buckets@,
            ),
            r is Err ==> (r matches Err(LedgerError::DivergentTrackers { .. })) || (r matches Err(
                LedgerError::BucketSumMismatch { .. },
            )),
            r is Ok ==> total_satoshis(final(self)@.acquisitions) == total_satoshis(
                old(self)@.acquisitions,
            ),
            r is Ok ==> total_gaap_undisposed(final(self)@.acquisitions) == total_gaap_undisposed(
                old(self)@.acquisitions,
            ),
            r is Ok ==> total_tax_undisposed(final(self)@.acquisitions) == total_tax_undisposed(
                old(self)@.acquisitions,
            ),
            final(self)@.acquisition_dispositions == old(self)@.acquisition_dispositions,
            r is Ok ==> forall|j: int|
                0 <= j < final(self)@.dispositions.len() ==> (#[trigger] final(self)@.dispositions[j]).wallet == "legacy"@,
            r is Ok && bucket_wallets_fresh(old(self)@.acquisitions, buckets@) ==> forall|b: int|
                0 <= b < buckets@.len() ==> #[trigger] crate::model::wallet_gaap_undisposed(
                    final(self)@.acquisitions,
                    buckets@[b].wallet@,
                ) == bucket_assigned(
                    buckets@,
                    total_gaap_undisposed(old(self)@.acquisitions),
                    b,
                ),
            old(self)@.acq_matches_consistent(Tracker::Tax) ==> final(self)@.acq_matches_consistent(
                Tracker::Tax,
            ),
            old(self)@.acq_matches_consistent(Tracker::Gaap) ==> final(self)@.acq_matches_consistent(Tracker::Gaap),
    {
        match self.find_divergent_lot() {
            Some(i) => {
                return Err(
                    LedgerError::DivergentTrackers {
                        acquisition_id: self.acquisitions[i].id,
                        acquisition_date: self.acquisitions[i].acquisition_date,
                        undisposed_satoshis: self.acquisitions[i].undisposed_satoshis,
                        tax_undisposed_satoshis: self.acquisitions[i].tax_undisposed_satoshis,
                    },
                );
            },
            None => {},
        }
        let mut bucket_total: i128 = 0;
        let mut k: usize = 0;
        let ghost half_scale: int = 0x8000_0000_0000_0000;
        proof {
            assert(buckets@.take(0) =~= Seq::<BucketRecord>::empty());
        }
        while k < buckets.len()
            invariant
                self.inv(),
                self@ == old(self)@,
                !has_divergent_lot(self@.acquisitions),
                0 <= k <= buckets@.len(),
                k <= 0xffff_ffff_ffff_ffff,
                half_scale == 0x8000_0000_0000_0000,
                bucket_total == bucket_total_satoshis(buckets@.take(k as int)),
                -(half_scale * (k as int)) <= bucket_total <= half_scale * (k as int),
            decreases buckets@.len() - k,
        {
            let s = buckets[k].satoshis;
            proof {
                assert(half_scale * ((k + 1) as int) == half_scale * (k as int) + half_scale)
                    by (nonlinear_arith)
                    requires
                        half_scale == 0x8000_0000_0000_0000,
                ;
                assert(half_scale * (k as int) <= half_scale * 0xffff_ffff_ffff_ffff)
                    by (nonlinear_arith)
                    requires
                        half_scale == 0x8000_0000_0000_0000,
                        0 <= k <= 0xffff_ffff_ffff_ffff,
                ;
                crate::sums::lemma_sum_map_take_succ(
                    buckets@,
                    |b: BucketRecord| b.satoshis as int,
                    k as int,
                );
            }
            bucket_total = bucket_total + s as i128;
            k = k + 1;
        }
        proof {
            assert(buckets@.take(buckets@.len() as int) =~= buckets@);
            assert(half_scale * (k as int) <= half_scale * 0xffff_ffff_ffff_ffff)
                by (nonlinear_arith)
                requires
                    half_scale == 0x8000_0000_0000_0000,
                    0 <= k <= 0xffff_ffff_ffff_ffff,
            ;
        }
        let la = self.acquisitions.len();
        let total_undisposed = self.total_gaap_balance();
        proof {
            let gf = |a: AcquisitionView| a.undisposed_satoshis;
            assert forall|i: int| 0 <= i < self@.acquisitions.len() implies 0 <= #[trigger] gf(
                self@.acquisitions[i],
            ) <= MAX_SATOSHIS as int by {
                assert(acq_wf(self@.acquisitions[i]));
            }
            crate::sums::lemma_sum_map_bound(
                self@.acquisitions,
                |a: AcquisitionView| a.undisposed_satoshis,
                0,
                MAX_SATOSHIS as int,
            );
            assert(self@.acquisitions.len() == la);
            assert((la as int) * (MAX_SATOSHIS as int) <= 0xffff_ffff_ffff_ffff * (
            MAX_SATOSHIS as int)) by (nonlinear_arith)
                requires
                    0 <= la <= 0xffff_ffff_ffff_ffff,
            ;
        }
        let tol = buckets.len() as i128;
        if bucket_total > total_undisposed + tol || bucket_total < total_undisposed - tol {
            return Err(
                LedgerError::BucketSumMismatch {
                    bucket_total_satoshis: bucket_total,
                    total_undisposed_satoshis: total_undisposed,
                    tolerance: buckets.len(),
                },
            );
        }
        let ghost pre = self@;
        let ghost s0 = total_gaap_undisposed(pre.acquisitions);
        let ghost fresh = bucket_wallets_fresh(pre.acquisitions, buckets@);
        proof {
            assert forall|j: int|
                0 <= j < self@.acquisitions.len() implies ((
            #[trigger] self@.acquisitions[j]).undisposed_satoshis > 0
                ==> self@.acquisitions[j].undisposed_satoshis
                == self@.acquisitions[j].tax_undisposed_satoshis) by {}
            crate::sums::lemma_sum_map_congruence(
                pre.acquisitions,
                pre.acquisitions,
                |a: AcquisitionView|
                    if crate::store::cursor_lt(None, a) {
                        a.undisposed_satoshis
                    } else {
                        0
                    },
                |a: AcquisitionView| a.undisposed_satoshis,
            );
        }
        let mut cursor: Option<(i64, u64)> = None;
        let mut b: usize = 0;
        while b < buckets.len()
            invariant
                pre == old(self)@,
                self.inv(),
                0 <= b <= buckets@.len(),
                self@.next_acquisition_id <= pre.next_acquisition_id + b,
                pre.next_acquisition_id + buckets@.len() < u64::MAX,
                self@.dispositions == pre.dispositions,
                self@.acquisition_dispositions == pre.acquisition_dispositions,
                total_satoshis(self@.acquisitions) == total_satoshis(pre.acquisitions),
                total_gaap_undisposed(self@.acquisitions) == total_gaap_undisposed(
                    pre.acquisitions,
                ),
                total_tax_undisposed(self@.acquisitions) == total_tax_undisposed(
                    pre.acquisitions,
                ),
                s0 == total_gaap_undisposed(pre.acquisitions),
                fresh == bucket_wallets_fresh(pre.acquisitions, buckets@),
                unassigned_supply(self@.acquisitions, cursor) == remaining_before(
                    buckets@,
                    s0,
                    b as int,
                ),
                forall|j: int|
                    0 <= j < self@.acquisitions.len() && crate::store::cursor_lt(
                        cursor,
                        #[trigger] self@.acquisitions[j],
                    ) ==> (j < pre.acquisitions.len() && self@.acquisitions[j]
                        == pre.acquisitions[j]) || self@.acquisitions[j].wallet == "unallocated"@,
                fresh ==> forall|j: int|
                    0 <= j < self@.acquisitions.len() ==> (exists|i: int|
                        0 <= i < pre.acquisitions.len() && (#[trigger] self@.acquisitions[j]).wallet
                            == pre.acquisitions[i].wallet) || (exists|bp: int|
                        0 <= bp < b && self@.acquisitions[j].wallet == buckets@[bp].wallet@)
                        || self@.acquisitions[j].wallet == "unallocated"@,
                fresh ==> forall|bp: int|
                    0 <= bp < b ==> #[trigger] crate::model::wallet_gaap_undisposed(
                        self@.acquisitions,
                        buckets@[bp].wallet@,
                    ) == bucket_assigned(buckets@, s0, bp),
                forall|j: int|
                    0 <= j < self@.acquisitions.len() ==> ((#[trigger] self@.acquisitions[j]).undisposed_satoshis > 0
                        ==> self@.acquisitions[j].undisposed_satoshis
                        == self@.acquisitions[j].tax_undisposed_satoshis),
                pre.acq_matches_consistent(Tracker::Tax) ==> self@.acq_matches_consistent(
                    Tracker::Tax,
                ),
                pre.acq_matches_consistent(Tracker::Gaap) ==> self@.acq_matches_consistent(
                    Tracker::Gaap,
                ),
            decreases buckets@.len() - b,
        {
            let bucket_record = &buckets[b];
            let bucket_wallet = &bucket_record.wallet;
            proof {
                assert(bucket_wallet@ == buckets@[b as int].wallet@);
            }
            let mut capacity: i64 = bucket_record.satoshis;
            if capacity < 0 {
                capacity = 0;
            }
            let ghost cap0 = capacity as int;
            let ghost rem_b = remaining_before(buckets@, s0, b as int);
            let ghost bpre = self@;
            let mut exhausted = false;
            proof {
                if fresh {
                    let wf_b = |a: AcquisitionView|
                        if a.wallet == buckets@[b as int].wallet@ {
                            a.undisposed_satoshis
                        } else {
                            0
                        };
                    assert forall|j: int| 0 <= j < self@.acquisitions.len() implies 0
                        <= #[trigger] wf_b(self@.acquisitions[j]) <= 0 by {
                        if self@.acquisitions[j].wallet == buckets@[b as int].wallet@ {
                            assert(false);
                        }
                    }
                    crate::sums::lemma_sum_map_bound(self@.acquisitions, wf_b, 0, 0);
                }
            }
            while capacity > 0 && !exhausted
                invariant
                    pre == old(self)@,
                    self.inv(),
                    self@.next_acquisition_id <= bpre.next_acquisition_id + (if capacity > 0 { 0i64 } else { 1i64 }),
                    bpre.next_acquisition_id <= pre.next_acquisition_id + b,
                    pre.next_acquisition_id + buckets@.len() < u64::MAX,
                    b < buckets@.len(),
                    0 <= capacity <= cap0,
                    cap0 == (if buckets@[b as int].satoshis as int > 0 {
                        buckets@[b as int].satoshis as int
                    } else {
                        0
                    }),
                    rem_b == remaining_before(buckets@, s0, b as int),
                    bucket_wallet@ == buckets@[b as int].wallet@,
                    s0 == total_gaap_undisposed(pre.acquisitions),
                    fresh == bucket_wallets_fresh(pre.acquisitions, buckets@),
                    self@.dispositions == pre.dispositions,
                    self@.acquisition_dispositions == pre.acquisition_dispositions,
                    total_satoshis(self@.acquisitions) == total_satoshis(pre.acquisitions),
                    total_gaap_undisposed(self@.acquisitions) == total_gaap_undisposed(
                        pre.acquisitions,
                    ),
                    total_tax_undisposed(self@.acquisitions) == total_tax_undisposed(
                        pre.acquisitions,
                    ),
                    unassigned_supply(self@.acquisitions, cursor) == rem_b - (cap0 - capacity),
                    exhausted ==> unassigned_supply(self@.acquisitions, cursor) == 0,
                    forall|j: int|
                        0 <= j < self@.acquisitions.len() && crate::store::cursor_lt(
                            cursor,
                            #[trigger] self@.acquisitions[j],
                        ) ==> (j < pre.acquisitions.len() && self@.acquisitions[j]
                            == pre.acquisitions[j]) || self@.acquisitions[j].wallet
                            == "unallocated"@,
                    fresh ==> forall|j: int|
                        0 <= j < self@.acquisitions.len() ==> (exists|i: int|
                            0 <= i < pre.acquisitions.len() && (
                            #[trigger] self@.acquisitions[j]).wallet == pre.acquisitions[i].wallet)
                            || (exists|bp: int|
                            0 <= bp < b + 1 && self@.acquisitions[j].wallet
                                == buckets@[bp].wallet@) || self@.acquisitions[j].wallet
                            == "unallocated"@,
                    fresh ==> forall|bp: int|
                        0 <= bp < b ==> #[trigger] crate::model::wallet_gaap_undisposed(
                            self@.acquisitions,
                            buckets@[bp].wallet@,
                        ) == bucket_assigned(buckets@, s0, bp),
                    fresh ==> crate::model::wallet_gaap_undisposed(
                        self@.acquisitions,
                        buckets@[b as int].wallet@,
                    ) == cap0 - capacity,
                    forall|j: int|
                        0 <= j < self@.acquisitions.len() ==> ((#[trigger] self@.acquisitions[j]).undisposed_satoshis > 0
                            ==> self@.acquisitions[j].undisposed_satoshis
                            == self@.acquisitions[j].tax_undisposed_satoshis),
                    pre.acq_matches_consistent(Tracker::Tax) ==> self@.acq_matches_consistent(
                        Tracker::Tax,
                    ),
                    pre.acq_matches_consistent(Tracker::Gaap) ==> self@.acq_matches_consistent(
                        Tracker::Gaap,
                    ),
                decreases capacity + (if exhausted {
                    0int
                } else {
                    1int
                }),
            {
                let found = self.find_earliest_eligible(
                    Tracker::Gaap,
                    Scope::Universal,
                    bucket_wallet,
                    cursor,
                );
                match found {
                    None => {
                        proof {
                            let sf = |a: AcquisitionView|
                                if crate::store::cursor_lt(cursor, a) {
                                    a.undisposed_satoshis
                                } else {
                                    0
                                };
                            assert forall|j: int| 0 <= j < self@.acquisitions.len() implies 0
                                <= #[trigger] sf(self@.acquisitions[j]) <= 0 by {
                                assert(acq_wf(self@.acquisitions[j]));
                                if crate::store::cursor_lt(cursor, self@.acquisitions[j])
                                    && self@.acquisitions[j].undisposed_satoshis > 0 {
                                    assert(crate::model::eligible(
                                        self@.acquisitions[j],
                                        Tracker::Gaap,
                                        Scope::Universal,
                                        bucket_wallet@,
                                    ));
                                    assert(false);
                                }
                            }
                            crate::sums::lemma_sum_map_bound(self@.acquisitions, sf, 0, 0);
                        }
                        exhausted = true;
                    },
                    Some(ai) => {
                        let ghost st = self@;
                        let ghost oldc = cursor;
                        let lot_date = self.acquisitions[ai].acquisition_date;
                        let lot_id = self.acquisitions[ai].id;
                        let lot_und = self.acquisitions[ai].undisposed_satoshis;
                        cursor = Some((lot_date, lot_id));
                        proof {
                            assert forall|j: int|
                                0 <= j < st.acquisitions.len() implies (
                            #[trigger] st.acquisitions[j]).undisposed_satoshis >= 0 by {
                                assert(acq_wf(st.acquisitions[j]));
                            }
                            Self::lemma_alloc_cursor_advance(
                                st.acquisitions,
                                oldc,
                                cursor,
                                ai as int,
                            );
                        }
                        if lot_und <= capacity {
                            self.set_wallet(ai, bucket_wallet.clone());
                            proof {
                                Self::lemma_alloc_assign_sums(
                                    st,
                                    self@,
                                    ai as int,
                                    bucket_wallet@,
                                    cursor,
                                );
                                Self::lemma_alloc_move_sums(st, self@, ai as int, bucket_wallet@);
                                assert forall|j: int|
                                    0 <= j < self@.acquisitions.len() implies ((
                                #[trigger] self@.acquisitions[j]).undisposed_satoshis > 0
                                    ==> self@.acquisitions[j].undisposed_satoshis
                                    == self@.acquisitions[j].tax_undisposed_satoshis) by {
                                    if j != ai {
                                        assert(self@.acquisitions[j] == st.acquisitions[j]);
                                    }
                                }
                                assert forall|j: int|
                                    0 <= j < self@.acquisitions.len() && crate::store::cursor_lt(
                                        cursor,
                                        #[trigger] self@.acquisitions[j],
                                    ) implies (j < pre.acquisitions.len() && self@.acquisitions[j]
                                    == pre.acquisitions[j]) || self@.acquisitions[j].wallet
                                    == "unallocated"@ by {
                                    assert(self@.acquisitions[j] == st.acquisitions[j]);
                                    assert(crate::store::cursor_lt(oldc, st.acquisitions[j]));
                                }
                                if fresh {
                                    assert((st.acquisitions[ai as int].wallet
                                        != buckets@[b as int].wallet@) && (forall|bp: int|
                                        0 <= bp < b
                                            ==> st.acquisitions[ai as int].wallet != (
                                        #[trigger] buckets@[bp]).wallet@)) by {
                                        assert(crate::store::cursor_lt(
                                            oldc,
                                            st.acquisitions[ai as int],
                                        ));
                                    }
                                }

                                if fresh {
                                    assert forall|j: int|
                                        0 <= j < self@.acquisitions.len() implies (exists|i: int|
                                        0 <= i < pre.acquisitions.len() && (
                                        #[trigger] self@.acquisitions[j]).wallet
                                            == pre.acquisitions[i].wallet) || (exists|bp: int|
                                        0 <= bp < b + 1 && self@.acquisitions[j].wallet
                                            == buckets@[bp].wallet@)
                                        || self@.acquisitions[j].wallet == "unallocated"@ by {
                                        if j == ai {
                                            assert(0 <= (b as int) < b + 1
                                                && self@.acquisitions[j].wallet == buckets@[
                                            b as int].wallet@);
                                        } else {
                                            assert(self@.acquisitions[j] == st.acquisitions[j]);
                                            if exists|i: int|
                                                0 <= i < pre.acquisitions.len() && (
                                                #[trigger] st.acquisitions[j]).wallet
                                                    == pre.acquisitions[i].wallet {
                                                let i = choose|i: int|
                                                    0 <= i < pre.acquisitions.len() && (
                                                    #[trigger] st.acquisitions[j]).wallet
                                                        == pre.acquisitions[i].wallet;
                                                assert(self@.acquisitions[j].wallet
                                                    == pre.acquisitions[i].wallet);
                                            } else if exists|bp: int|
                                                0 <= bp < b && st.acquisitions[j].wallet
                                                    == buckets@[bp].wallet@ {
                                                let bp = choose|bp: int|
                                                    0 <= bp < b && st.acquisitions[j].wallet
                                                        == buckets@[bp].wallet@;
                                                assert(self@.acquisitions[j].wallet == buckets@[
                                                bp].wallet@);
                                            }
                                        }
                                    }
                                    assert forall|bp: int|
                                        0 <= bp < b implies #[trigger] crate::model::wallet_gaap_undisposed(
                                        self@.acquisitions,
                                        buckets@[bp].wallet@,
                                    ) == bucket_assigned(buckets@, s0, bp) by {
                                        assert(buckets@[bp].wallet@ != buckets@[
                                        b as int].wallet@);
                                        assert(st.acquisitions[ai as int].wallet != buckets@[
                                        bp].wallet@);
                                    }
                                }
                            }
                            capacity = capacity - lot_und;
                        } else {
                            proof {
                                assert(acq_wf(st.acquisitions[ai as int]));
                            }
                            self.set_wallet(ai, bucket_wallet.clone());
                            let ghost mid = self@;
                            proof {
                                Self::lemma_alloc_assign_sums(
                                    st,
                                    self@,
                                    ai as int,
                                    bucket_wallet@,
                                    cursor,
                                );
                                Self::lemma_alloc_move_sums(st, self@, ai as int, bucket_wallet@);
                            }
                            let keep = capacity;
                            proof {
                                assert(mid.acquisitions[ai as int].undisposed_satoshis
                                    == mid.acquisitions[ai as int].tax_undisposed_satoshis);
                            }
                            self.split_lot_equal(ai, keep, "unallocated".to_string());
                            proof {
                                Self::lemma_alloc_split_sums(
                                    mid,
                                    self@,
                                    ai as int,
                                    mid.acquisitions[ai as int].undisposed_satoshis - keep as int,
                                );
                                Self::lemma_alloc_split_supply(
                                    mid,
                                    self@,
                                    ai as int,
                                    mid.acquisitions[ai as int].undisposed_satoshis - keep as int,
                                    cursor,
                                );
                                assert forall|j: int|
                                    0 <= j < self@.acquisitions.len() implies ((
                                #[trigger] self@.acquisitions[j]).undisposed_satoshis > 0
                                    ==> self@.acquisitions[j].undisposed_satoshis
                                    == self@.acquisitions[j].tax_undisposed_satoshis) by {
                                    if j < mid.acquisitions.len() {
                                        if j != ai {
                                            assert(self@.acquisitions[j] == mid.acquisitions[j]);
                                        }
                                    }
                                }
                                assert forall|j: int|
                                    0 <= j < self@.acquisitions.len() && crate::store::cursor_lt(
                                        cursor,
                                        #[trigger] self@.acquisitions[j],
                                    ) implies (j < pre.acquisitions.len() && self@.acquisitions[j]
                                    == pre.acquisitions[j]) || self@.acquisitions[j].wallet
                                    == "unallocated"@ by {
                                    if j < mid.acquisitions.len() {
                                        if j != ai {
                                            assert(self@.acquisitions[j] == mid.acquisitions[j]);
                                            assert(crate::store::cursor_lt(
                                                oldc,
                                                st.acquisitions[j],
                                            ));
                                        }
                                    } else {
                                        assert(self@.acquisitions[j]
                                            == self@.acquisitions.last());
                                    }
                                }
                                if fresh {
                                    assert((st.acquisitions[ai as int].wallet
                                        != buckets@[b as int].wallet@) && (forall|bp: int|
                                        0 <= bp < b
                                            ==> st.acquisitions[ai as int].wallet != (
                                        #[trigger] buckets@[bp]).wallet@)) by {
                                        assert(crate::store::cursor_lt(
                                            oldc,
                                            st.acquisitions[ai as int],
                                        ));
                                    }
                                }

                                if fresh {
                                    assert(mid.acquisitions[ai as int].wallet == buckets@[
                                    b as int].wallet@);
                                    assert(self@.acquisitions[ai as int]
                                        == crate::model::split_parent(
                                        mid.acquisitions[ai as int],
                                        mid.acquisitions[ai as int].undisposed_satoshis
                                            - keep as int,
                                        mid.acquisitions[ai as int].undisposed_satoshis
                                            - keep as int,
                                        mid.acquisitions[ai as int].undisposed_satoshis
                                            - keep as int,
                                    ));
                                    assert(self@.acquisitions[ai as int].wallet == buckets@[
                                    b as int].wallet@);
                                    assert forall|j: int|
                                        0 <= j < self@.acquisitions.len() implies (exists|i: int|
                                        0 <= i < pre.acquisitions.len() && (
                                        #[trigger] self@.acquisitions[j]).wallet
                                            == pre.acquisitions[i].wallet) || (exists|bp: int|
                                        0 <= bp < b + 1 && self@.acquisitions[j].wallet
                                            == buckets@[bp].wallet@)
                                        || self@.acquisitions[j].wallet == "unallocated"@ by {
                                        if j == ai {
                                            assert(0 <= (b as int) < b + 1
                                                && self@.acquisitions[j].wallet == buckets@[
                                            b as int].wallet@);
                                        } else if j >= mid.acquisitions.len() {
                                            assert(self@.acquisitions[j].wallet
                                                == "unallocated"@);
                                        } else {
                                            assert(self@.acquisitions[j] == mid.acquisitions[j]);
                                            assert(mid.acquisitions[j] == st.acquisitions[j]);
                                            if exists|i: int|
                                                0 <= i < pre.acquisitions.len() && (
                                                #[trigger] st.acquisitions[j]).wallet
                                                    == pre.acquisitions[i].wallet {
                                                let i = choose|i: int|
                                                    0 <= i < pre.acquisitions.len() && (
                                                    #[trigger] st.acquisitions[j]).wallet
                                                        == pre.acquisitions[i].wallet;
                                                assert(self@.acquisitions[j].wallet
                                                    == pre.acquisitions[i].wallet);
                                            } else if exists|bp: int|
                                                0 <= bp < b && st.acquisitions[j].wallet
                                                    == buckets@[bp].wallet@ {
                                                let bp = choose|bp: int|
                                                    0 <= bp < b && st.acquisitions[j].wallet
                                                        == buckets@[bp].wallet@;
                                                assert(self@.acquisitions[j].wallet == buckets@[
                                                bp].wallet@);
                                            }
                                        }
                                    }
                                    assert forall|bp: int|
                                        0 <= bp < b implies #[trigger] crate::model::wallet_gaap_undisposed(
                                        self@.acquisitions,
                                        buckets@[bp].wallet@,
                                    ) == bucket_assigned(buckets@, s0, bp) by {
                                        assert(buckets@[bp].wallet@ != buckets@[
                                        b as int].wallet@);
                                        assert(buckets@[bp].wallet@ != "unallocated"@);
                                        assert(st.acquisitions[ai as int].wallet != buckets@[
                                        bp].wallet@);
                                        assert(mid.acquisitions[ai as int].wallet == buckets@[
                                        b as int].wallet@);
                                        assert(crate::model::wallet_gaap_undisposed(
                                            mid.acquisitions,
                                            buckets@[bp].wallet@,
                                        ) == crate::model::wallet_gaap_undisposed(
                                            st.acquisitions,
                                            buckets@[bp].wallet@,
                                        ));
                                    }
                                    assert(crate::model::wallet_gaap_undisposed(
                                        self@.acquisitions,
                                        buckets@[b as int].wallet@,
                                    ) == cap0 - 0);
                                }
                            }
                            capacity = 0;
                        }
                    },
                }
            }
            proof {
                if capacity > 0 {
                    assert(rem_b == cap0 - capacity + unassigned_supply(
                        self@.acquisitions,
                        cursor,
                    ));
                    assert(unassigned_supply(self@.acquisitions, cursor) == 0);
                    assert(bucket_assigned(buckets@, s0, b as int) == cap0 - capacity);
                } else {
                    let sf = |a: AcquisitionView|
                        if crate::store::cursor_lt(cursor, a) {
                            a.undisposed_satoshis
                        } else {
                            0
                        };
                    assert forall|j: int| 0 <= j < self@.acquisitions.len() implies #[trigger] sf(
                        self@.acquisitions[j],
                    ) >= 0 by {
                        assert(acq_wf(self@.acquisitions[j]));
                    }
                    crate::sums::lemma_sum_map_nonneg(self@.acquisitions, sf);
                    assert(bucket_assigned(buckets@, s0, b as int) == cap0);
                }
                assert(remaining_before(buckets@, s0, (b + 1) as int) == rem_b - bucket_assigned(
                    buckets@,
                    s0,
                    b as int,
                ));
            }
            b = b + 1;
        }
        let ghost walked = self@;
        let mut d: usize = 0;
        while d < self.dispositions.len()
            invariant
                pre == old(self)@,
                self.inv(),
                0 <= d <= self@.dispositions.len(),
                self@.dispositions.len() == pre.dispositions.len(),
                self@.acquisition_dispositions == pre.acquisition_dispositions,
                self@.acquisitions == walked.acquisitions,
                s0 == total_gaap_undisposed(pre.acquisitions),
                fresh == bucket_wallets_fresh(pre.acquisitions, buckets@),
                total_satoshis(self@.acquisitions) == total_satoshis(pre.acquisitions),
                total_gaap_undisposed(self@.acquisitions) == total_gaap_undisposed(
                    pre.acquisitions,
                ),
                total_tax_undisposed(self@.acquisitions) == total_tax_undisposed(
                    pre.acquisitions,
                ),
                fresh ==> forall|bp: int|
                    0 <= bp < buckets@.len() ==> #[trigger] crate::model::wallet_gaap_undisposed(
                        self@.acquisitions,
                        buckets@[bp].wallet@,
                    ) == bucket_assigned(buckets@, s0, bp),
                forall|j: int|
                    0 <= j < d ==> (#[trigger] self@.dispositions[j]).wallet == "legacy"@,
                pre.acq_matches_consistent(Tracker::Tax) ==> self@.acq_matches_consistent(
                    Tracker::Tax,
                ),
                pre.acq_matches_consistent(Tracker::Gaap) ==> self@.acq_matches_consistent(
                    Tracker::Gaap,
                ),
            decreases self@.dispositions.len() - d,
        {
            proof {
                reveal_strlit("legacy");
            }
            let ghost st = self@;
            self.set_disposition_wallet(d, "legacy".to_string());
            proof {
                assert forall|j: int| 0 <= j < d + 1 implies (
                #[trigger] self@.dispositions[j]).wallet == "legacy"@ by {
                    if j < d {
                        assert(self@.dispositions[j] == st.dispositions[j]);
                    }
                }
            }
            d = d + 1;
        }
        Ok(())
    }

    /// A wallet re-tag during allocation changes no quantity sum.
    proof fn lemma_alloc_move_sums(
        st: crate::model::LedgerView,
        post: crate::model::LedgerView,
        ai: int,
        wallet: Seq<char>,
    )
        requires
            0 <= ai < st.acquisitions.len(),
            post.acquisitions == st.acquisitions.update(
                ai,
                crate::model::acq_with_wallet(st.acquisitions[ai], wallet),
            ),
        ensures
            total_satoshis(post.acquisitions) == total_satoshis(st.acquisitions),
            total_gaap_undisposed(post.acquisitions) == total_gaap_undisposed(st.acquisitions),
            total_tax_undisposed(post.acquisitions) == total_tax_undisposed(st.acquisitions),
    {
        let na = crate::model::acq_with_wallet(st.acquisitions[ai], wallet);
        lemma_sum_map_update(st.acquisitions, |a: AcquisitionView| a.satoshis, ai, na);
        lemma_sum_map_update(st.acquisitions, |a: AcquisitionView| a.undisposed_satoshis, ai, na);
        lemma_sum_map_update(
            st.acquisitions,
            |a: AcquisitionView| a.tax_undisposed_satoshis,
            ai,
            na,
        );
    }

    /// An equal split during allocation conserves every quantity sum.
    proof fn lemma_alloc_split_sums(
        st: crate::model::LedgerView,
        post: crate::model::LedgerView,
        ai: int,
        e: int,
    )
        requires
            0 <= ai < st.acquisitions.len(),
            post.acquisitions == st.acquisitions.update(
                ai,
                crate::model::split_parent(st.acquisitions[ai], e, e, e),
            ).push(
                crate::model::split_child(
                    st.acquisitions[ai],
                    post.next_acquisition_id - 1,
                    e,
                    e,
                    e,
                    "unallocated"@,
                ),
            ),
        ensures
            total_satoshis(post.acquisitions) == total_satoshis(st.acquisitions),
            total_gaap_undisposed(post.acquisitions) == total_gaap_undisposed(st.acquisitions),
            total_tax_undisposed(post.acquisitions) == total_tax_undisposed(st.acquisitions),
    {
        let lot = st.acquisitions[ai];
        let parent = crate::model::split_parent(lot, e, e, e);
        let child = crate::model::split_child(
            lot,
            post.next_acquisition_id - 1,
            e,
            e,
            e,
            "unallocated"@,
        );
        let mid = st.acquisitions.update(ai, parent);
        lemma_sum_map_update(st.acquisitions, |a: AcquisitionView| a.satoshis, ai, parent);
        lemma_sum_map_push(mid, |a: AcquisitionView| a.satoshis, child);
        lemma_sum_map_update(
            st.acquisitions,
            |a: AcquisitionView| a.undisposed_satoshis,
            ai,
            parent,
        );
        lemma_sum_map_push(mid, |a: AcquisitionView| a.undisposed_satoshis, child);
        lemma_sum_map_update(
            st.acquisitions,
            |a: AcquisitionView| a.tax_undisposed_satoshis,
            ai,
            parent,
        );
        lemma_sum_map_push(mid, |a: AcquisitionView| a.tax_undisposed_satoshis, child);
    }
}

impl Ledger {
    /// Advancing the cursor past the earliest remaining lot takes exactly
    /// that lot's quantity out of the unassigned supply.
    proof fn lemma_alloc_cursor_advance(
        acqs: Seq<AcquisitionView>,
        oldc: Option<(i64, u64)>,
        newc: Option<(i64, u64)>,
        ai: int,
    )
        requires
            0 <= ai < acqs.len(),
            forall|j: int| 0 <= j < acqs.len() ==> (#[trigger] acqs[j]).undisposed_satoshis >= 0,
            crate::store::cursor_lt(oldc, acqs[ai]),
            newc is Some,
            newc.unwrap().0 == acqs[ai].acquisition_date,
            newc.unwrap().1 == acqs[ai].id,
            forall|j: int|
                0 <= j < acqs.len() && j != ai && (#[trigger] acqs[j]).undisposed_satoshis > 0
                    && crate::store::cursor_lt(oldc, acqs[j]) ==> crate::model::acq_key_lt(
                    acqs[ai],
                    acqs[j],
                ),
        ensures
            unassigned_supply(acqs, newc) == unassigned_supply(acqs, oldc)
                - acqs[ai].undisposed_satoshis,
    {
        let f_old = |a: AcquisitionView|
            if crate::store::cursor_lt(oldc, a) {
                a.undisposed_satoshis
            } else {
                0
            };
        let f_new = |a: AcquisitionView|
            if crate::store::cursor_lt(newc, a) {
                a.undisposed_satoshis
            } else {
                0
            };
        assert forall|j: int| 0 <= j < acqs.len() && j != ai implies #[trigger] f_new(acqs[j])
            == f_old(acqs[j]) by {
            if crate::store::cursor_lt(newc, acqs[j]) {
                assert(crate::store::cursor_lt(oldc, acqs[j]));
            } else if crate::store::cursor_lt(oldc, acqs[j]) {
                if acqs[j].undisposed_satoshis > 0 {
                    assert(crate::model::acq_key_lt(acqs[ai], acqs[j]));
                    assert(crate::store::cursor_lt(newc, acqs[j]));
                    assert(false);
                }
            }
        }
        crate::sums::lemma_sum_map_diff_single(acqs, f_old, f_new, ai);
        assert(f_old(acqs[ai]) == acqs[ai].undisposed_satoshis);
        assert(f_new(acqs[ai]) == 0);
    }

    /// A wallet re-tag moves the lot's quantity between the two wallets'
    /// sums and leaves the unassigned supply untouched.
    proof fn lemma_alloc_assign_sums(
        st: crate::model::LedgerView,
        post: crate::model::LedgerView,
        ai: int,
        new_wallet: Seq<char>,
        cursor: Option<(i64, u64)>,
    )
        requires
            0 <= ai < st.acquisitions.len(),
            post.acquisitions == st.acquisitions.update(
                ai,
                crate::model::acq_with_wallet(st.acquisitions[ai], new_wallet),
            ),
        ensures
            forall|w: Seq<char>| #[trigger] crate::model::wallet_gaap_undisposed(
                post.acquisitions,
                w,
            ) == crate::model::wallet_gaap_undisposed(st.acquisitions, w) + (if new_wallet == w
                && st.acquisitions[ai].wallet != w {
                st.acquisitions[ai].undisposed_satoshis
            } else if st.acquisitions[ai].wallet == w && new_wallet != w {
                -st.acquisitions[ai].undisposed_satoshis
            } else {
                0
            }),
            unassigned_supply(post.acquisitions, cursor) == unassigned_supply(
                st.acquisitions,
                cursor,
            ),
    {
        let na = crate::model::acq_with_wallet(st.acquisitions[ai], new_wallet);
        assert forall|w: Seq<char>| #[trigger] crate::model::wallet_gaap_undisposed(
            post.acquisitions,
            w,
        ) == crate::model::wallet_gaap_undisposed(st.acquisitions, w) + (if new_wallet == w
            && st.acquisitions[ai].wallet != w {
            st.acquisitions[ai].undisposed_satoshis
        } else if st.acquisitions[ai].wallet == w && new_wallet != w {
            -st.acquisitions[ai].undisposed_satoshis
        } else {
            0
        }) by {
            lemma_sum_map_update(
                st.acquisitions,
                |a: AcquisitionView|
                    if a.wallet == w {
                        a.undisposed_satoshis
                    } else {
                        0
                    },
                ai,
                na,
            );
        }
        lemma_sum_map_update(
            st.acquisitions,
            |a: AcquisitionView|
                if crate::store::cursor_lt(cursor, a) {
                    a.undisposed_satoshis
                } else {
                    0
                },
            ai,
            na,
        );
    }

    /// An equal split at the cursor keeps the excess in the unassigned
    /// supply under the residual tag and takes it out of the parent's
    /// wallet sum.
    proof fn lemma_alloc_split_supply(
        st: crate::model::LedgerView,
        post: crate::model::LedgerView,
        ai: int,
        e: int,
        cursor: Option<(i64, u64)>,
    )
        requires
            0 <= ai < st.acquisitions.len(),
            st.acquisitions[ai].id < st.next_acquisition_id,
            post.acquisitions == st.acquisitions.update(
                ai,
                crate::model::split_parent(st.acquisitions[ai], e, e, e),
            ).push(
                crate::model::split_child(
                    st.acquisitions[ai],
                    st.next_acquisition_id,
                    e,
                    e,
                    e,
                    "unallocated"@,
                ),
            ),
            cursor is Some,
            cursor.unwrap().0 == st.acquisitions[ai].acquisition_date,
            cursor.unwrap().1 == st.acquisitions[ai].id,
        ensures
            forall|w: Seq<char>| #[trigger] crate::model::wallet_gaap_undisposed(
                post.acquisitions,
                w,
            ) == crate::model::wallet_gaap_undisposed(st.acquisitions, w) + (if "unallocated"@ == w
                && st.acquisitions[ai].wallet != w {
                e
            } else if st.acquisitions[ai].wallet == w && "unallocated"@ != w {
                -e
            } else {
                0
            }),
            unassigned_supply(post.acquisitions, cursor) == unassigned_supply(
                st.acquisitions,
                cursor,
            ) + e,
    {
        let lot = st.acquisitions[ai];
        let parent = crate::model::split_parent(lot, e, e, e);
        let child = crate::model::split_child(lot, st.next_acquisition_id, e, e, e, "unallocated"@);
        let mid = st.acquisitions.update(ai, parent);
        assert forall|w: Seq<char>| #[trigger] crate::model::wallet_gaap_undisposed(
            post.acquisitions,
            w,
        ) == crate::model::wallet_gaap_undisposed(st.acquisitions, w) + (if "unallocated"@ == w
            && st.acquisitions[ai].wallet != w {
            e
        } else if st.acquisitions[ai].wallet == w && "unallocated"@ != w {
            -e
        } else {
            0
        }) by {
            let f = |a: AcquisitionView|
                if a.wallet == w {
                    a.undisposed_satoshis
                } else {
                    0
                };
            lemma_sum_map_update(st.acquisitions, f, ai, parent);
            lemma_sum_map_push(mid, f, child);
        }
        let g = |a: AcquisitionView|
            if crate::store::cursor_lt(cursor, a) {
                a.undisposed_satoshis
            } else {
                0
            };
        lemma_sum_map_update(st.acquisitions, g, ai, parent);
        lemma_sum_map_push(mid, g, child);
        assert(!crate::store::cursor_lt(cursor, lot));
        assert(!crate::store::cursor_lt(cursor, parent));
        assert(crate::store::cursor_lt(cursor, child));
    }
}

} // verus!
