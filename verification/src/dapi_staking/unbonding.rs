//! The queue of balance that was unstaked and waits for its unlock era.

use vstd::prelude::*;
use crate::primitives::{capped, Balance, EraIndex};
use crate::sorted::{increasing, lemma_insert_increasing, lemma_rank_is, lemma_rank_parts, rank};
use crate::sums::{
    lemma_sum_bounds_element, lemma_sum_insert, lemma_sum_push, lemma_sum_update, sum,
};

verus! {

/// An amount that becomes withdrawable in `unlock_era`.
#[derive(Clone, Copy, Debug, PartialEq, Eq, Structural)]
pub struct UnlockingChunk {
    pub amount: Balance,
    pub unlock_era: EraIndex,
}

/// The unlock eras of the chunks, in order.
pub open spec fn unlock_eras(s: Seq<UnlockingChunk>) -> Seq<int> {
    Seq::new(s.len(), |i: int| s[i].unlock_era as int)
}

/// The amounts of the chunks, in order.
pub open spec fn chunk_amounts(s: Seq<UnlockingChunk>) -> Seq<nat> {
    Seq::new(s.len(), |i: int| s[i].amount as nat)
}

/// The exact sum of all amounts.
pub open spec fn chunks_total(s: Seq<UnlockingChunk>) -> nat {
    sum(chunk_amounts(s))
}

/// The queue after `chunk` has joined it: merged into the chunk of the same era if
/// there is one, else inserted where its era belongs.
pub open spec fn with_chunk(s: Seq<UnlockingChunk>, chunk: UnlockingChunk) -> Seq<UnlockingChunk> {
    let p = rank(unlock_eras(s), chunk.unlock_era as int);
    if p < s.len() && s[p].unlock_era == chunk.unlock_era {
        s.update(
            p,
            UnlockingChunk {
                amount: capped(s[p].amount + chunk.amount),
                unlock_era: chunk.unlock_era,
            },
        )
    } else {
        s.insert(p, chunk)
    }
}

/// The chunks that have unlocked by `era`, in order.
pub open spec fn matured(s: Seq<UnlockingChunk>, era: EraIndex) -> Seq<UnlockingChunk> {
    s.filter(|c: UnlockingChunk| c.unlock_era <= era)
}

/// The chunks that unlock after `era`, in order.
pub open spec fn pending(s: Seq<UnlockingChunk>, era: EraIndex) -> Seq<UnlockingChunk> {
    s.filter(|c: UnlockingChunk| c.unlock_era > era)
}

/// Whether some chunk unlocks in `era`.
pub open spec fn has_era(s: Seq<UnlockingChunk>, era: EraIndex) -> bool {
    exists|i: int| 0 <= i < s.len() && s[i].unlock_era == era
}

/// What joining a chunk does to a queue in order: the queue stays in order; it grows by
/// one chunk unless a chunk of that era was there; and, unless the merged amount exceeds
/// the largest balance, its total grows by the chunk's amount.
pub proof fn lemma_with_chunk(s: Seq<UnlockingChunk>, chunk: UnlockingChunk)
    requires
        increasing(unlock_eras(s)),
    ensures
        increasing(unlock_eras(with_chunk(s, chunk))),
        with_chunk(s, chunk).len() == s.len() + if has_era(s, chunk.unlock_era) {
            0int
        } else {
            1int
        },
        has_era(s, chunk.unlock_era) <==> ({
            let p = rank(unlock_eras(s), chunk.unlock_era as int);
            0 <= p < s.len() && s[p].unlock_era == chunk.unlock_era
        }),
        chunks_total(s) + chunk.amount <= u128::MAX ==> chunks_total(with_chunk(s, chunk))
            == chunks_total(s) + chunk.amount,
{
    let eras = unlock_eras(s);
    let out = with_chunk(s, chunk);
    lemma_rank_parts(eras, chunk.unlock_era as int);
    let p = rank(eras, chunk.unlock_era as int);
    if p < s.len() && s[p].unlock_era == chunk.unlock_era {
        assert(unlock_eras(out) =~= eras);
        lemma_sum_bounds_element(chunk_amounts(s), p);
        if chunks_total(s) + chunk.amount <= u128::MAX {
            let merged = (s[p].amount + chunk.amount) as nat;
            assert(chunk_amounts(out) =~= chunk_amounts(s).update(p, merged));
            lemma_sum_update(chunk_amounts(s), p, merged);
        }
    } else {
        assert forall|j: int| 0 <= j < eras.len() implies eras[j] != chunk.unlock_era as int by {
            if j < p {
                assert(eras[j] < chunk.unlock_era);
            } else {
                assert(eras[j] >= chunk.unlock_era);
                if j > p {
                    assert(eras[p] < eras[j]);
                }
                assert(s[p].unlock_era != chunk.unlock_era);
            }
        }
        assert(!has_era(s, chunk.unlock_era)) by {
            if has_era(s, chunk.unlock_era) {
                let i = choose|i: int| 0 <= i < s.len() && s[i].unlock_era == chunk.unlock_era;
                assert(eras[i] == chunk.unlock_era as int);
            }
        }
        lemma_insert_increasing(eras, chunk.unlock_era as int);
        assert(unlock_eras(out) =~= eras.insert(p, chunk.unlock_era as int));
        assert(chunk_amounts(out) =~= chunk_amounts(s).insert(p, chunk.amount as nat));
        lemma_sum_insert(chunk_amounts(s), p, chunk.amount as nat);
    }
}

/// Unlocking chunks in ascending order of unlock era, one chunk per era.
#[derive(Debug, PartialEq, Eq)]
pub struct UnbondingInfo {
    unlocking_chunks: Vec<UnlockingChunk>,
}

impl View for UnbondingInfo {
    type V = Seq<UnlockingChunk>;

    closed spec fn view(&self) -> Seq<UnlockingChunk> {
        self.unlocking_chunks@
    }
}

impl Default for UnbondingInfo {
    fn default() -> (r: Self)
        ensures
            r@ == Seq::<UnlockingChunk>::empty(),
            r.wf(),
    {
        UnbondingInfo { unlocking_chunks: Vec::new() }
    }
}

impl Clone for UnbondingInfo {
    fn clone(&self) -> (r: Self)
        ensures
            r@ == self@,
    {
        let mut out: Vec<UnlockingChunk> = Vec::new();
        let mut i: usize = 0;
        while i < self.unlocking_chunks.len()
            invariant
                i <= self.unlocking_chunks.len(),
                out@ == self.unlocking_chunks@.take(i as int),
            decreases self.unlocking_chunks.len() - i,
        {
            out.push(self.unlocking_chunks[i]);
            proof {
                assert(self.unlocking_chunks@.take(i + 1) =~= self.unlocking_chunks@.take(
                    i as int,
                ).push(self.unlocking_chunks@[i as int]));
            }
            i += 1;
        }
        proof {
            assert(self.unlocking_chunks@.take(i as int) =~= self.unlocking_chunks@);
        }
        UnbondingInfo { unlocking_chunks: out }
    }
}

impl UnbondingInfo {
    /// The eras ascend strictly: the queue is sorted and holds no era twice.
    pub open spec fn wf(&self) -> bool {
        increasing(unlock_eras(self@))
    }

    /// The number of chunks.
    pub fn len(&self) -> (r: u32)
        ensures
            r == self@.len() as u32,
    {
        #[verifier::truncate]
        (self.unlocking_chunks.len() as u32)
    }

    /// Whether the queue holds no chunk.
    pub fn is_empty(&self) -> (r: bool)
        ensures
            r == (self@.len() == 0),
    {
        self.unlocking_chunks.len() == 0
    }

    /// The number of chunks, as a machine word.
    pub fn count(&self) -> (r: usize)
        ensures
            r == self@.len(),
    {
        self.unlocking_chunks.len()
    }

    /// Whether some chunk unlocks in `era`.
    pub fn unlocks_in(&self, era: EraIndex) -> (r: bool)
        ensures
            r == has_era(self@, era),
    {
        let mut i: usize = 0;
        while i < self.unlocking_chunks.len()
            invariant
                i <= self.unlocking_chunks.len(),
                forall|j: int| 0 <= j < i ==> self@[j].unlock_era != era,
            decreases self.unlocking_chunks.len() - i,
        {
            if self.unlocking_chunks[i].unlock_era == era {
                return true;
            }
            i += 1;
        }
        false
    }

    /// The sum of all amounts, cut down to the largest balance.
    pub fn sum(&self) -> (r: Balance)
        ensures
            r == capped(chunks_total(self@) as int),
    {
        let mut acc: Balance = 0;
        let mut i: usize = 0;
        while i < self.unlocking_chunks.len()
            invariant
                i <= self.unlocking_chunks.len(),
                acc == capped(sum(chunk_amounts(self@).take(i as int)) as int),
            decreases self.unlocking_chunks.len() - i,
        {
            proof {
                let a = chunk_amounts(self@);
                assert(a.take(i + 1) =~= a.take(i as int).push(a[i as int]));
                lemma_sum_push(a.take(i as int), a[i as int]);
            }
            acc = acc.saturating_add(self.unlocking_chunks[i].amount);
            i += 1;
        }
        proof {
            assert(chunk_amounts(self@).take(i as int) =~= chunk_amounts(self@));
        }
        acc
    }

    /// Adds a chunk: its amount joins the chunk of the same era, or the chunk takes its
    /// place in the order of eras. The queue's length is not limited here.
    pub fn add(&mut self, chunk: UnlockingChunk)
        requires
            old(self).wf(),
        ensures
            final(self).wf(),
            final(self)@ == with_chunk(old(self)@, chunk),
    {
        let ghost before = self@;
        let ghost eras = unlock_eras(before);
        let n = self.unlocking_chunks.len();
        let mut i: usize = 0;
        while i < n && self.unlocking_chunks[i].unlock_era < chunk.unlock_era
            invariant
                i <= n,
                n == self.unlocking_chunks.len(),
                self@ == before,
                forall|j: int| 0 <= j < i ==> before[j].unlock_era < chunk.unlock_era,
            decreases n - i,
        {
            i += 1;
        }
        proof {
            assert forall|j: int| i <= j < eras.len() implies eras[j] >= chunk.unlock_era by {
                if j > i {
                    assert(eras[i as int] < eras[j]);
                }
            }
            lemma_rank_is(eras, chunk.unlock_era as int, i as int);
        }
        if i < n && self.unlocking_chunks[i].unlock_era == chunk.unlock_era {
            let amount = self.unlocking_chunks[i].amount.saturating_add(chunk.amount);
            self.unlocking_chunks[i].amount = amount;
            proof {
                assert(unlock_eras(self@) =~= eras);
            }
        } else {
            self.unlocking_chunks.insert(i, chunk);
            proof {
                assert forall|j: int| 0 <= j < eras.len() implies eras[j] != chunk.unlock_era by {
                    if j > i {
                        assert(eras[i as int] < eras[j]);
                    }
                }
                lemma_insert_increasing(eras, chunk.unlock_era as int);
                assert(unlock_eras(self@) =~= eras.insert(i as int, chunk.unlock_era as int));
            }
        }
    }

    /// Splits the queue at `era`: first the chunks that have unlocked by then, second
    /// the others. Both keep their order, and together they hold what the queue held.
    pub fn partition(self, era: EraIndex) -> (r: (UnbondingInfo, UnbondingInfo))
        ensures
            r.0@ == matured(self@, era),
            r.1@ == pending(self@, era),
            chunks_total(r.0@) + chunks_total(r.1@) == chunks_total(self@),
            r.0@.len() + r.1@.len() == self@.len(),
            self.wf() ==> r.0.wf() && r.1.wf(),
    {
        let ghost s = self@;
        let ghost ripe = |c: UnlockingChunk| c.unlock_era <= era;
        let ghost late = |c: UnlockingChunk| c.unlock_era > era;
        let mut first: Vec<UnlockingChunk> = Vec::new();
        let mut second: Vec<UnlockingChunk> = Vec::new();
        let mut i: usize = 0;
        proof {
            reveal(Seq::filter);
            assert(s.take(0).filter(ripe) =~= Seq::<UnlockingChunk>::empty());
            assert(s.take(0).filter(late) =~= Seq::<UnlockingChunk>::empty());
            assert(chunk_amounts(s.take(0)) =~= Seq::<nat>::empty());
            assert(chunk_amounts(first@) =~= Seq::<nat>::empty());
            assert(chunk_amounts(second@) =~= Seq::<nat>::empty());
        }
        while i < self.unlocking_chunks.len()
            invariant
                i <= self.unlocking_chunks.len(),
                s == self.unlocking_chunks@,
                ripe == |c: UnlockingChunk| c.unlock_era <= era,
                late == |c: UnlockingChunk| c.unlock_era > era,
                first@ == s.take(i as int).filter(ripe),
                second@ == s.take(i as int).filter(late),
                chunks_total(first@) + chunks_total(second@) == chunks_total(s.take(i as int)),
                first@.len() + second@.len() == i,
                increasing(unlock_eras(s)) ==> increasing(unlock_eras(first@)) && increasing(
                    unlock_eras(second@),
                ),
                increasing(unlock_eras(s)) ==> forall|k: int, j: int|
                    0 <= k < first@.len() && i <= j < s.len() ==> first@[k].unlock_era
                        < s[j].unlock_era,
                increasing(unlock_eras(s)) ==> forall|k: int, j: int|
                    0 <= k < second@.len() && i <= j < s.len() ==> second@[k].unlock_era
                        < s[j].unlock_era,
            decreases self.unlocking_chunks.len() - i,
        {
            let chunk = self.unlocking_chunks[i];
            let ghost first_before = first@;
            let ghost second_before = second@;
            proof {
                reveal(Seq::filter);
                assert(s.take(i + 1).drop_last() =~= s.take(i as int));
                assert(s.take(i + 1).last() == chunk);
                assert(chunk_amounts(s.take(i + 1)) =~= chunk_amounts(s.take(i as int)).push(
                    chunk.amount as nat,
                ));
                lemma_sum_push(chunk_amounts(s.take(i as int)), chunk.amount as nat);
                if increasing(unlock_eras(s)) {
                    assert forall|j: int| i < j < s.len() implies chunk.unlock_era
                        < s[j].unlock_era by {
                        assert(unlock_eras(s)[i as int] < unlock_eras(s)[j]);
                    }
                }
            }
            if chunk.unlock_era <= era {
                first.push(chunk);
                proof {
                    assert(chunk_amounts(first@) =~= chunk_amounts(first_before).push(
                        chunk.amount as nat,
                    ));
                    lemma_sum_push(chunk_amounts(first_before), chunk.amount as nat);
                    if increasing(unlock_eras(s)) {
                        let eras = unlock_eras(first@);
                        assert forall|a: int, b: int| 0 <= a < b < eras.len() implies eras[a]
                            < eras[b] by {
                            if b < first_before.len() {
                                assert(unlock_eras(first_before)[a] < unlock_eras(
                                    first_before,
                                )[b]);
                            } else {
                                assert(first_before[a].unlock_era < s[i as int].unlock_era);
                            }
                        }
                    }
                }
            } else {
                second.push(chunk);
                proof {
                    assert(chunk_amounts(second@) =~= chunk_amounts(second_before).push(
                        chunk.amount as nat,
                    ));
                    lemma_sum_push(chunk_amounts(second_before), chunk.amount as nat);
                    if increasing(unlock_eras(s)) {
                        let eras = unlock_eras(second@);
                        assert forall|a: int, b: int| 0 <= a < b < eras.len() implies eras[a]
                            < eras[b] by {
                            if b < second_before.len() {
                                assert(unlock_eras(second_before)[a] < unlock_eras(
                                    second_before,
                                )[b]);
                            } else {
                                assert(second_before[a].unlock_era < s[i as int].unlock_era);
                            }
                        }
                    }
                }
            }
            i += 1;
        }
        proof {
            assert(s.take(i as int) =~= s);
        }
        (UnbondingInfo { unlocking_chunks: first }, UnbondingInfo { unlocking_chunks: second })
    }

    /// The chunks, in order.
    pub fn vec(&self) -> (r: Vec<UnlockingChunk>)
        ensures
            r@ == self@,
    {
        self.clone().unlocking_chunks
    }
}

} // verus!
