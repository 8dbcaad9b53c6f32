//! What is staked on one provider during one era, and by whom.

use vstd::prelude::*;
use crate::primitives::{AccountId, Balance};
use crate::sorted::{
    increasing, lemma_insert_increasing, lemma_rank_is, lemma_rank_parts,
    lemma_remove_increasing, rank,
};
use crate::sums::{
    lemma_sum_bounds_element, lemma_sum_insert, lemma_sum_remove, lemma_sum_single,
    lemma_sum_update, lemma_sum_zeros, sum,
};

verus! {

/// The stake of one account on a provider.
#[derive(Clone, Copy, Debug, PartialEq, Eq, Structural)]
pub struct StakerStake {
    pub staker: AccountId,
    pub amount: Balance,
}

/// The accounts of the entries, in order.
pub open spec fn staker_ids(s: Seq<StakerStake>) -> Seq<int> {
    Seq::new(s.len(), |i: int| s[i].staker as int)
}

/// The amounts of the entries, in order.
pub open spec fn stake_amounts(s: Seq<StakerStake>) -> Seq<nat> {
    Seq::new(s.len(), |i: int| s[i].amount as nat)
}

/// The sum of all stakes.
pub open spec fn stakes_total(s: Seq<StakerStake>) -> nat {
    sum(stake_amounts(s))
}

/// What each entry holds for `who`: its amount if it is the entry of `who`, else nothing.
pub open spec fn stakes_held(s: Seq<StakerStake>, who: AccountId) -> Seq<nat> {
    Seq::new(
        s.len(),
        |i: int|
            if s[i].staker == who {
                s[i].amount as nat
            } else {
                0nat
            },
    )
}

/// The stake of `who`, zero if `who` has none.
pub open spec fn stake_of(s: Seq<StakerStake>, who: AccountId) -> nat {
    sum(stakes_held(s, who))
}

/// Entries ascend strictly by account, and none is empty.
pub open spec fn stakers_wf(s: Seq<StakerStake>) -> bool {
    &&& increasing(staker_ids(s))
    &&& forall|i: int| 0 <= i < s.len() ==> (#[trigger] s[i]).amount > 0
}

/// The entries after `amount` was added to the stake of `who`.
pub open spec fn credited(s: Seq<StakerStake>, who: AccountId, amount: Balance) -> Seq<
    StakerStake,
> {
    let p = rank(staker_ids(s), who as int);
    if p < s.len() && s[p].staker == who {
        s.update(p, StakerStake { staker: who, amount: (s[p].amount + amount) as u128 })
    } else {
        s.insert(p, StakerStake { staker: who, amount })
    }
}

/// The entries after `amount` was taken from the stake of `who`; an entry that is left
/// with nothing is dropped.
pub open spec fn debited(s: Seq<StakerStake>, who: AccountId, amount: Balance) -> Seq<
    StakerStake,
> {
    let p = rank(staker_ids(s), who as int);
    if p < s.len() && s[p].staker == who {
        if s[p].amount <= amount {
            s.remove(p)
        } else {
            s.update(p, StakerStake { staker: who, amount: (s[p].amount - amount) as u128 })
        }
    } else {
        s
    }
}

/// The entry of `who`, if there is one, stands at the rank of `who` and holds the stake
/// of `who`; if there is none, the stake is zero.
pub proof fn lemma_stake_of(s: Seq<StakerStake>, who: AccountId)
    requires
        stakers_wf(s),
    ensures
        ({
            let p = rank(staker_ids(s), who as int);
            &&& 0 <= p <= s.len()
            &&& p < s.len() && s[p].staker == who ==> stake_of(s, who) == s[p].amount
            &&& !(p < s.len() && s[p].staker == who) ==> stake_of(s, who) == 0
            &&& !(p < s.len() && s[p].staker == who) ==> forall|j: int|
                0 <= j < s.len() ==> (#[trigger] s[j]).staker != who
        }),
        stake_of(s, who) <= stakes_total(s),
{
    let ids = staker_ids(s);
    lemma_rank_parts(ids, who as int);
    let p = rank(ids, who as int);
    let held = stakes_held(s, who);
    assert forall|j: int| 0 <= j < s.len() && j != p implies s[j].staker != who by {
        if j < p {
            assert(ids[j] < who);
        } else {
            assert(ids[j] >= who);
            if p < s.len() {
                assert(ids[p] < ids[j]);
            }
        }
    }
    if p < s.len() && s[p].staker == who {
        assert forall|j: int| 0 <= j < held.len() && j != p implies held[j] == 0 by {}
        lemma_sum_single(held, p);
        lemma_sum_bounds_element(stake_amounts(s), p);
    } else {
        assert forall|j: int| 0 <= j < held.len() implies held[j] == 0 by {
            if j == p {
                assert(ids[p] >= who);
            }
        }
        lemma_sum_zeros(held);
    }
}

/// Crediting `who` adds to the stake of `who` and to the total, and to nothing else.
pub proof fn lemma_credited(s: Seq<StakerStake>, who: AccountId, amount: Balance)
    requires
        stakers_wf(s),
        amount > 0,
        stake_of(s, who) + amount <= u128::MAX,
    ensures
        stakers_wf(credited(s, who, amount)),
        stakes_total(credited(s, who, amount)) == stakes_total(s) + amount,
        forall|w: AccountId| #[trigger]
            stake_of(credited(s, who, amount), w) == stake_of(s, w) + if w == who {
                amount as nat
            } else {
                0nat
            },
        credited(s, who, amount).len() == s.len() + if stake_of(s, who) == 0 {
            1int
        } else {
            0int
        },
{
    let ids = staker_ids(s);
    lemma_stake_of(s, who);
    let p = rank(ids, who as int);
    let out = credited(s, who, amount);
    if p < s.len() && s[p].staker == who {
        let entry = StakerStake { staker: who, amount: (s[p].amount + amount) as u128 };
        assert(staker_ids(out) =~= ids);
        assert(stake_amounts(out) =~= stake_amounts(s).update(p, entry.amount as nat));
        lemma_sum_update(stake_amounts(s), p, entry.amount as nat);
        assert forall|w: AccountId| #[trigger]
            stake_of(out, w) == stake_of(s, w) + if w == who {
                amount as nat
            } else {
                0nat
            } by {
            if w == who {
                assert(stakes_held(out, w) =~= stakes_held(s, w).update(p, entry.amount as nat));
                lemma_sum_update(stakes_held(s, w), p, entry.amount as nat);
            } else {
                assert(stakes_held(out, w) =~= stakes_held(s, w));
            }
        }
    } else {
        let entry = StakerStake { staker: who, amount };
        assert forall|j: int| 0 <= j < ids.len() implies ids[j] != who as int by {
            assert(s[j].staker != who);
        }
        lemma_insert_increasing(ids, who as int);
        assert(staker_ids(out) =~= ids.insert(p, who as int));
        assert(stake_amounts(out) =~= stake_amounts(s).insert(p, amount as nat));
        lemma_sum_insert(stake_amounts(s), p, amount as nat);
        assert forall|w: AccountId| #[trigger]
            stake_of(out, w) == stake_of(s, w) + if w == who {
                amount as nat
            } else {
                0nat
            } by {
            if w == who {
                assert(stakes_held(out, w) =~= stakes_held(s, w).insert(p, amount as nat));
                lemma_sum_insert(stakes_held(s, w), p, amount as nat);
            } else {
                assert(stakes_held(out, w) =~= stakes_held(s, w).insert(p, 0nat));
                lemma_sum_insert(stakes_held(s, w), p, 0nat);
            }
        }
    }
}

/// Debiting `who` takes from the stake of `who` and from the total, and from nothing
/// else.
pub proof fn lemma_debited(s: Seq<StakerStake>, who: AccountId, amount: Balance)
    requires
        stakers_wf(s),
        0 < amount <= stake_of(s, who),
    ensures
        stakers_wf(debited(s, who, amount)),
        stakes_total(debited(s, who, amount)) + amount == stakes_total(s),
        forall|w: AccountId| #[trigger]
            stake_of(debited(s, who, amount), w) + (if w == who {
                amount as nat
            } else {
                0nat
            }) == stake_of(s, w),
        debited(s, who, amount).len() == s.len() - if stake_of(s, who) == amount {
            1int
        } else {
            0int
        },
{
    let ids = staker_ids(s);
    lemma_stake_of(s, who);
    let p = rank(ids, who as int);
    let out = debited(s, who, amount);
    assert(p < s.len() && s[p].staker == who);
    if s[p].amount <= amount {
        lemma_remove_increasing(ids, p);
        assert(staker_ids(out) =~= ids.remove(p));
        assert(stake_amounts(out) =~= stake_amounts(s).remove(p));
        lemma_sum_remove(stake_amounts(s), p);
        assert forall|w: AccountId| #[trigger]
            stake_of(out, w) + (if w == who {
                amount as nat
            } else {
                0nat
            }) == stake_of(s, w) by {
            assert(stakes_held(out, w) =~= stakes_held(s, w).remove(p));
            lemma_sum_remove(stakes_held(s, w), p);
        }
    } else {
        let left = (s[p].amount - amount) as u128;
        assert(staker_ids(out) =~= ids);
        assert(stake_amounts(out) =~= stake_amounts(s).update(p, left as nat));
        lemma_sum_update(stake_amounts(s), p, left as nat);
        assert forall|w: AccountId| #[trigger]
            stake_of(out, w) + (if w == who {
                amount as nat
            } else {
                0nat
            }) == stake_of(s, w) by {
            if w == who {
                assert(stakes_held(out, w) =~= stakes_held(s, w).update(p, left as nat));
                lemma_sum_update(stakes_held(s, w), p, left as nat);
            } else {
                assert(stakes_held(out, w) =~= stakes_held(s, w));
            }
        }
    }
}

/// The stake points of a provider in an era, as plain values.
pub struct StakingPoints {
    pub total: Balance,
    pub stakers: Seq<StakerStake>,
    pub claimed_rewards: Balance,
}

impl StakingPoints {
    /// No stake, nothing claimed.
    pub open spec fn empty() -> StakingPoints {
        StakingPoints { total: 0, stakers: Seq::empty(), claimed_rewards: 0 }
    }

    /// The same stakes with nothing claimed.
    pub open spec fn unclaimed(self) -> StakingPoints {
        StakingPoints { claimed_rewards: 0, ..self }
    }

    /// The total is the sum of the stakes, which ascend by account and are not empty.
    pub open spec fn wf(self) -> bool {
        &&& stakers_wf(self.stakers)
        &&& self.total == stakes_total(self.stakers)
    }
}

/// The stake points of a provider in an era: the total staked on it, the stake of each
/// staker in ascending order of account, and the reward already paid out for the era
/// (zero while it is unclaimed).
#[derive(Debug, PartialEq, Eq)]
pub struct EraStakingPoints {
    pub total: Balance,
    pub stakers: Vec<StakerStake>,
    pub claimed_rewards: Balance,
}

impl View for EraStakingPoints {
    type V = StakingPoints;

    open spec fn view(&self) -> StakingPoints {
        StakingPoints {
            total: self.total,
            stakers: self.stakers@,
            claimed_rewards: self.claimed_rewards,
        }
    }
}

impl Default for EraStakingPoints {
    fn default() -> (r: Self)
        ensures
            r@ == StakingPoints::empty(),
    {
        EraStakingPoints { total: 0, stakers: Vec::new(), claimed_rewards: 0 }
    }
}

impl Clone for EraStakingPoints {
    fn clone(&self) -> (r: Self)
        ensures
            r@ == self@,
    {
        let mut out: Vec<StakerStake> = Vec::new();
        let mut i: usize = 0;
        while i < self.stakers.len()
            invariant
                i <= self.stakers.len(),
                out@ == self.stakers@.take(i as int),
            decreases self.stakers.len() - i,
        {
            out.push(self.stakers[i]);
            proof {
                assert(self.stakers@.take(i + 1) =~= self.stakers@.take(i as int).push(
                    self.stakers@[i as int],
                ));
            }
            i += 1;
        }
        proof {
            assert(self.stakers@.take(i as int) =~= self.stakers@);
        }
        EraStakingPoints {
            total: self.total,
            stakers: out,
            claimed_rewards: self.claimed_rewards,
        }
    }
}

impl EraStakingPoints {
    /// The index at which the entry of `who` stands, or would be inserted.
    fn position(&self, who: AccountId) -> (p: usize)
        requires
            self@.wf(),
        ensures
            p == rank(staker_ids(self.stakers@), who as int),
            p <= self.stakers@.len(),
    {
        let ghost ids = staker_ids(self.stakers@);
        let n = self.stakers.len();
        let mut i: usize = 0;
        while i < n && self.stakers[i].staker < who
            invariant
                i <= n,
                n == self.stakers.len(),
                forall|j: int| 0 <= j < i ==> self.stakers@[j].staker < who,
            decreases n - i,
        {
            i += 1;
        }
        proof {
            assert forall|j: int| i <= j < ids.len() implies ids[j] >= who by {
                if j > i {
                    assert(ids[i as int] < ids[j]);
                }
            }
            lemma_rank_is(ids, who as int, i as int);
        }
        i
    }

    /// The stake of `who`, zero if `who` has none.
    pub fn staked_by(&self, who: AccountId) -> (r: Balance)
        requires
            self@.wf(),
        ensures
            r == stake_of(self.stakers@, who),
    {
        proof {
            lemma_stake_of(self.stakers@, who);
        }
        let p = self.position(who);
        if p < self.stakers.len() && self.stakers[p].staker == who {
            self.stakers[p].amount
        } else {
            0
        }
    }

    /// The number of accounts that hold a stake.
    pub fn number_of_stakers(&self) -> (r: usize)
        ensures
            r == self.stakers@.len(),
    {
        self.stakers.len()
    }

    /// Adds `amount` to the stake of `who` and to the total.
    pub fn credit(&mut self, who: AccountId, amount: Balance)
        requires
            old(self)@.wf(),
            amount > 0,
            old(self).total + amount <= u128::MAX,
        ensures
            final(self)@.wf(),
            final(self)@ == (StakingPoints {
                total: (old(self).total + amount) as u128,
                stakers: credited(old(self).stakers@, who, amount),
                claimed_rewards: old(self).claimed_rewards,
            }),
    {
        proof {
            lemma_stake_of(self.stakers@, who);
            lemma_credited(self.stakers@, who, amount);
        }
        let p = self.position(who);
        if p < self.stakers.len() && self.stakers[p].staker == who {
            let sum = self.stakers[p].amount + amount;
            self.stakers[p].amount = sum;
        } else {
            self.stakers.insert(p, StakerStake { staker: who, amount });
        }
        self.total = self.total + amount;
    }

    /// Takes `amount` from the stake of `who` and from the total; a stake that is left
    /// with nothing is dropped.
    pub fn debit(&mut self, who: AccountId, amount: Balance)
        requires
            old(self)@.wf(),
            0 < amount <= stake_of(old(self).stakers@, who),
        ensures
            final(self)@.wf(),
            final(self)@ == (StakingPoints {
                total: (old(self).total - amount) as u128,
                stakers: debited(old(self).stakers@, who, amount),
                claimed_rewards: old(self).claimed_rewards,
            }),
    {
        proof {
            lemma_stake_of(self.stakers@, who);
            lemma_debited(self.stakers@, who, amount);
        }
        let p = self.position(who);
        if self.stakers[p].amount <= amount {
            self.stakers.remove(p);
        } else {
            let left = self.stakers[p].amount - amount;
            self.stakers[p].amount = left;
        }
        self.total = self.total - amount;
    }
}

} // verus!
