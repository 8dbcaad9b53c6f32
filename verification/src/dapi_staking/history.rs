//! The stake points of one provider over the eras. Only eras in which the points were
//! written hold an entry; any other era reads the latest entry before it.

use vstd::prelude::*;
use crate::dapi_staking::points::{EraStakingPoints, StakingPoints};
use crate::primitives::EraIndex;
use crate::sorted::{increasing, lemma_insert_increasing, lemma_rank_is, lemma_rank_parts, rank};

verus! {

/// The stake points written in `era`.
#[derive(Debug, PartialEq, Eq)]
pub struct EraPoints {
    pub era: EraIndex,
    pub points: EraStakingPoints,
}

/// The eras of the entries, in order.
pub open spec fn entry_eras(h: Seq<EraPoints>) -> Seq<int> {
    Seq::new(h.len(), |i: int| h[i].era as int)
}

/// The index of the latest entry at or before `era`, or -1 if there is none.
pub open spec fn latest_at(h: Seq<EraPoints>, era: EraIndex) -> int {
    rank(entry_eras(h), era + 1) - 1
}

/// The era of the latest entry at or before `era`, or -1 if there is none.
pub open spec fn latest_era(h: Seq<EraPoints>, era: EraIndex) -> int {
    let i = latest_at(h, era);
    if i < 0 {
        -1
    } else {
        h[i].era as int
    }
}

/// Whether the points were written in `era` itself.
pub open spec fn has_entry(h: Seq<EraPoints>, era: EraIndex) -> bool {
    latest_era(h, era) == era
}

/// The stake points that hold in `era`: those written in `era`, else those of the latest
/// entry before it with nothing claimed, else none.
pub open spec fn points_at(h: Seq<EraPoints>, era: EraIndex) -> StakingPoints {
    let i = latest_at(h, era);
    if i < 0 {
        StakingPoints::empty()
    } else if h[i].era == era {
        h[i].points@
    } else {
        h[i].points@.unclaimed()
    }
}

/// What `era` reads after `points` were written in `written`, given what it read before.
pub open spec fn points_after_write(
    h: Seq<EraPoints>,
    written: EraIndex,
    points: StakingPoints,
    era: EraIndex,
) -> StakingPoints {
    if era == written {
        points
    } else if era > written && latest_era(h, era) <= written {
        points.unclaimed()
    } else {
        points_at(h, era)
    }
}

/// Entries ascend strictly by era, and each holds well-formed points.
pub open spec fn history_wf(h: Seq<EraPoints>) -> bool {
    &&& increasing(entry_eras(h))
    &&& forall|i: int| 0 <= i < h.len() ==> (#[trigger] h[i]).points@.wf()
}

/// Whatever an era reads from a well-formed history is well formed.
pub proof fn lemma_points_at_wf(h: Seq<EraPoints>, era: EraIndex)
    requires
        history_wf(h),
    ensures
        points_at(h, era).wf(),
        -1 <= latest_at(h, era) < h.len(),
        latest_era(h, era) <= era,
{
    lemma_rank_parts(entry_eras(h), era + 1);
    let i = latest_at(h, era);
    if i >= 0 {
        assert(h[i].points@.wf());
        assert(entry_eras(h)[i] < era + 1);
    } else {
        assert(crate::dapi_staking::points::stake_amounts(Seq::empty()) =~= Seq::<nat>::empty());
        assert(crate::dapi_staking::points::staker_ids(Seq::empty()) =~= Seq::<int>::empty());
    }
}

/// The era of an entry reads the points of that entry.
pub proof fn lemma_entry_is_read(h: Seq<EraPoints>, k: int)
    requires
        history_wf(h),
        0 <= k < h.len(),
    ensures
        points_at(h, h[k].era) == h[k].points@,
        has_entry(h, h[k].era),
{
    let eras = entry_eras(h);
    assert forall|j: int| 0 <= j < k + 1 implies eras[j] < h[k].era + 1 by {
        if j < k {
            assert(eras[j] < eras[k]);
        }
    }
    assert forall|j: int| k + 1 <= j < eras.len() implies eras[j] >= h[k].era + 1 by {
        assert(eras[k] < eras[j]);
    }
    lemma_rank_is(eras, h[k].era + 1, k + 1);
}

/// An era that no entry lies beyond reads what the last era with an entry reads, but
/// for what was claimed.
pub proof fn lemma_points_at_beyond(h: Seq<EraPoints>, last: EraIndex, era: EraIndex)
    requires
        history_wf(h),
        forall|i: int| 0 <= i < h.len() ==> (#[trigger] h[i]).era <= last,
        last <= era,
    ensures
        points_at(h, era).unclaimed() == points_at(h, last).unclaimed(),
        last < era ==> points_at(h, era) == points_at(h, last).unclaimed(),
        latest_era(h, era) == latest_era(h, last),
{
    let eras = entry_eras(h);
    assert forall|j: int| 0 <= j < eras.len() implies eras[j] < last + 1 by {
        assert(h[j].era <= last);
    }
    lemma_rank_is(eras, last + 1, eras.len() as int);
    lemma_rank_is(eras, era + 1, eras.len() as int);
}

/// Where an era past `written` reads an entry at or before `written`, both read the
/// same entry.
pub proof fn lemma_points_at_fallback(h: Seq<EraPoints>, written: EraIndex, era: EraIndex)
    requires
        history_wf(h),
        era > written,
        latest_era(h, era) <= written,
    ensures
        points_at(h, era) == points_at(h, written).unclaimed(),
{
    let eras = entry_eras(h);
    lemma_rank_parts(eras, era + 1);
    lemma_rank_parts(eras, written + 1);
    let r = rank(eras, era + 1);
    assert forall|j: int| 0 <= j < r implies eras[j] < written + 1 by {
        if j < r - 1 {
            assert(eras[j] < eras[r - 1]);
        }
        assert(h[r - 1].era <= written);
    }
    assert forall|j: int| r <= j < eras.len() implies eras[j] >= written + 1 by {
        assert(eras[j] >= era + 1);
    }
    lemma_rank_is(eras, written + 1, r);
}

/// Whether `h2` is `h` after `p` was written in `written`: over the entry of that era,
/// or as a new entry where the era belongs.
pub open spec fn written_into(
    h: Seq<EraPoints>,
    h2: Seq<EraPoints>,
    written: EraIndex,
    p: StakingPoints,
) -> bool {
    let i = rank(entry_eras(h), written + 1);
    &&& 0 <= i <= h.len()
    &&& if i > 0 && h[i - 1].era == written {
        &&& h2.len() == h.len()
        &&& h2[i - 1].era == written
        &&& h2[i - 1].points@ == p
        &&& forall|j: int| 0 <= j < h.len() && j != i - 1 ==> h2[j] == h[j]
    } else {
        &&& h2.len() == h.len() + 1
        &&& h2[i].era == written
        &&& h2[i].points@ == p
        &&& forall|j: int| 0 <= j < i ==> h2[j] == h[j]
        &&& forall|j: int| i <= j < h.len() ==> h2[j + 1] == h[j]
    }
}

proof fn lemma_write_keeps_wf(
    h: Seq<EraPoints>,
    h2: Seq<EraPoints>,
    written: EraIndex,
    p: StakingPoints,
)
    requires
        history_wf(h),
        p.wf(),
        written_into(h, h2, written, p),
    ensures
        history_wf(h2),
        ({
            let i = rank(entry_eras(h), written + 1);
            if i > 0 && h[i - 1].era == written {
                entry_eras(h2) == entry_eras(h)
            } else {
                &&& entry_eras(h2) == entry_eras(h).insert(i, written as int)
                &&& i == rank(entry_eras(h), written as int)
            }
        }),
{
    let eras = entry_eras(h);
    let eras2 = entry_eras(h2);
    lemma_rank_parts(eras, written + 1);
    let i = rank(eras, written + 1);
    if i > 0 && h[i - 1].era == written {
        assert(eras2 =~= eras);
        assert forall|j: int| 0 <= j < h2.len() implies (#[trigger] h2[j]).points@.wf() by {
            if j != i - 1 {
                assert(h2[j] == h[j]);
                assert(h[j].points@.wf());
            }
        }
    } else {
        assert forall|j: int| 0 <= j < eras.len() implies eras[j] != written as int by {
            if j < i {
                if j < i - 1 {
                    assert(eras[j] < eras[i - 1]);
                }
                assert(eras[i - 1] < written + 1);
                assert(h[i - 1].era != written);
            } else {
                assert(eras[j] >= written + 1);
            }
        }
        assert forall|j: int| 0 <= j < i implies eras[j] < written by {
            assert(eras[j] < written + 1);
        }
        lemma_rank_is(eras, written as int, i);
        lemma_insert_increasing(eras, written as int);
        assert(eras2 =~= eras.insert(i, written as int));
        assert forall|j: int| 0 <= j < h2.len() implies (#[trigger] h2[j]).points@.wf() by {
            if j < i {
                assert(h2[j] == h[j]);
                assert(h[j].points@.wf());
            } else if j > i {
                assert(h2[j] == h[j - 1]);
                assert(h[j - 1].points@.wf());
            }
        }
    }
}

proof fn lemma_write_at(
    h: Seq<EraPoints>,
    h2: Seq<EraPoints>,
    written: EraIndex,
    p: StakingPoints,
    era: EraIndex,
)
    requires
        history_wf(h),
        p.wf(),
        written_into(h, h2, written, p),
    ensures
        points_at(h2, era) == points_after_write(h, written, p, era),
        has_entry(h2, era) == (era == written || has_entry(h, era)),
{
    let eras = entry_eras(h);
    let eras2 = entry_eras(h2);
    lemma_write_keeps_wf(h, h2, written, p);
    lemma_rank_parts(eras, written + 1);
    lemma_rank_parts(eras, era + 1);
    lemma_rank_parts(eras2, era + 1);
    let i = rank(eras, written + 1);
    let r = rank(eras, era + 1);
    if i > 0 && h[i - 1].era == written {
        if r - 1 == i - 1 {
            assert(eras[i - 1] < era + 1);
        } else if r - 1 >= 0 {
            assert(h2[r - 1] == h[r - 1]);
            assert(eras[r - 1] < era + 1);
            if r - 1 < i - 1 {
                assert(eras[r - 1] < eras[i - 1]);
                assert(eras[i - 1] >= era + 1);
            } else {
                assert(eras[i - 1] < eras[r - 1]);
            }
        } else {
            assert(eras[i - 1] >= era + 1);
        }
    } else if era < written {
        // the new entry lies beyond `era`
        assert forall|j: int| 0 <= j < r implies eras2[j] < era + 1 by {
            if j >= i {
                assert(eras[j] >= written + 1);
            }
        }
        assert forall|j: int| r <= j < eras2.len() implies eras2[j] >= era + 1 by {
            if j < i {
                assert(eras2[j] == eras[j]);
            } else if j > i {
                assert(eras2[j] == eras[j - 1]);
                assert(eras[j - 1] >= written + 1);
            }
        }
        lemma_rank_is(eras2, era + 1, r);
        if r >= 1 {
            if r - 1 >= i {
                assert(eras[r - 1] >= written + 1);
            }
            assert(h2[r - 1] == h[r - 1]);
        }
    } else {
        assert forall|j: int| 0 <= j < r + 1 implies eras2[j] < era + 1 by {
            if j < i {
                assert(eras2[j] == eras[j]);
                assert(eras[j] < written + 1);
            } else if j > i {
                assert(eras2[j] == eras[j - 1]);
            }
        }
        assert forall|j: int| r + 1 <= j < eras2.len() implies eras2[j] >= era + 1 by {
            if j <= i {
                assert(eras[j - 1] < written + 1);
            } else {
                assert(eras2[j] == eras[j - 1]);
            }
        }
        if r < i {
            assert(eras[r] < written + 1);
            assert(eras[r] >= era + 1);
        }
        lemma_rank_is(eras2, era + 1, r + 1);
        if r == i {
            if i > 0 {
                assert(eras[i - 1] < written + 1);
            }
        } else {
            assert(h2[r] == h[r - 1]);
            assert(eras[r - 1] >= written + 1);
        }
    }
}

/// Writing points in an era changes what that era reads, and what later eras read that
/// have no entry of their own in between; it changes nothing else.
pub proof fn lemma_write(h: Seq<EraPoints>, h2: Seq<EraPoints>, written: EraIndex, p: StakingPoints)
    requires
        history_wf(h),
        p.wf(),
        written_into(h, h2, written, p),
    ensures
        history_wf(h2),
        forall|era: EraIndex| #[trigger]
            points_at(h2, era) == points_after_write(h, written, p, era),
        forall|era: EraIndex| #[trigger]
            has_entry(h2, era) == (era == written || has_entry(h, era)),
{
    lemma_write_keeps_wf(h, h2, written, p);
    assert forall|era: EraIndex| #[trigger]
        points_at(h2, era) == points_after_write(h, written, p, era) by {
        lemma_write_at(h, h2, written, p, era);
    }
    assert forall|era: EraIndex| #[trigger]
        has_entry(h2, era) == (era == written || has_entry(h, era)) by {
        lemma_write_at(h, h2, written, p, era);
    }
}

/// The stake points of one provider over the eras, in ascending order of era.
#[derive(Debug, PartialEq, Eq)]
pub struct StakeHistory {
    pub entries: Vec<EraPoints>,
}

impl StakeHistory {
    /// A history with no entry.
    pub fn new() -> (r: Self)
        ensures
            r.entries@ == Seq::<EraPoints>::empty(),
            history_wf(r.entries@),
    {
        proof {
            assert(entry_eras(Seq::<EraPoints>::empty()) =~= Seq::<int>::empty());
        }
        StakeHistory { entries: Vec::new() }
    }

    /// The number of entries at or before `era`.
    fn locate(&self, era: EraIndex) -> (i: usize)
        requires
            history_wf(self.entries@),
        ensures
            i == rank(entry_eras(self.entries@), era + 1),
            i <= self.entries@.len(),
    {
        let ghost eras = entry_eras(self.entries@);
        let n = self.entries.len();
        let mut i: usize = 0;
        while i < n && self.entries[i].era <= era
            invariant
                i <= n,
                n == self.entries.len(),
                forall|j: int| 0 <= j < i ==> self.entries@[j].era <= era,
            decreases n - i,
        {
            i += 1;
        }
        proof {
            assert forall|j: int| i <= j < eras.len() implies eras[j] >= era + 1 by {
                if j > i {
                    assert(eras[i as int] < eras[j]);
                }
            }
            lemma_rank_is(eras, era + 1, i as int);
        }
        i
    }

    /// Whether the points were written in `era` itself.
    pub fn contains(&self, era: EraIndex) -> (r: bool)
        requires
            history_wf(self.entries@),
        ensures
            r == has_entry(self.entries@, era),
    {
        let i = self.locate(era);
        i > 0 && self.entries[i - 1].era == era
    }

    /// The points written in `era` itself, if any.
    pub fn get(&self, era: EraIndex) -> (r: Option<EraStakingPoints>)
        requires
            history_wf(self.entries@),
        ensures
            r is Some == has_entry(self.entries@, era),
            r is Some ==> r->0@ == points_at(self.entries@, era),
    {
        let i = self.locate(era);
        if i > 0 && self.entries[i - 1].era == era {
            Some(self.entries[i - 1].points.clone())
        } else {
            None
        }
    }

    /// The points that hold in `era`: those written in it, else those of the latest era
    /// before it with nothing claimed, else none.
    pub fn at(&self, era: EraIndex) -> (r: EraStakingPoints)
        requires
            history_wf(self.entries@),
        ensures
            r@ == points_at(self.entries@, era),
            r@.wf(),
    {
        proof {
            lemma_points_at_wf(self.entries@, era);
        }
        let i = self.locate(era);
        if i == 0 {
            EraStakingPoints::default()
        } else {
            let mut points = self.entries[i - 1].points.clone();
            if self.entries[i - 1].era != era {
                points.claimed_rewards = 0;
            }
            points
        }
    }

    /// Writes `points` as the points of `era`, over what was written there before.
    pub fn put(&mut self, era: EraIndex, points: EraStakingPoints)
        requires
            history_wf(old(self).entries@),
            points@.wf(),
        ensures
            history_wf(final(self).entries@),
            forall|e: EraIndex| #[trigger]
                points_at(final(self).entries@, e) == points_after_write(
                    old(self).entries@,
                    era,
                    points@,
                    e,
                ),
            forall|e: EraIndex| #[trigger]
                has_entry(final(self).entries@, e) == (e == era || has_entry(
                    old(self).entries@,
                    e,
                )),
            forall|i: int|
                0 <= i < final(self).entries@.len() ==> (#[trigger] final(self).entries@[i]).era
                    == era || exists|j: int|
                    0 <= j < old(self).entries@.len() && old(self).entries@[j]
                        == final(self).entries@[i],
    {
        let ghost before = self.entries@;
        let ghost p = points@;
        let i = self.locate(era);
        if i > 0 && self.entries[i - 1].era == era {
            self.entries[i - 1].points = points;
        } else {
            self.entries.insert(i, EraPoints { era, points });
        }
        proof {
            lemma_write(before, self.entries@, era, p);
        }
    }
}

} // verus!
