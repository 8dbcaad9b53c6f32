//! Claiming the reward of a provider for an era that has closed: the provider's share
//! of the era's reward leaves the pool, the operator takes its cut, and the stakers
//! share the rest in proportion to their stakes.

use vstd::prelude::*;
use crate::dapi_staking::history::{
    history_wf, latest_era, lemma_points_at_fallback, points_after_write, points_at, EraPoints,
};
use crate::dapi_staking::pallet::{
    index_of, lemma_one_provider_differs, staked_by, total_staked, Pallet,
};
use crate::dapi_staking::points::{EraStakingPoints, StakerStake, StakingPoints};
use crate::dapi_staking::types::{EraRewardAndStake, Event, Outcome, ProviderState};
use crate::dapi_staking::unbonding::chunks_total;
use crate::primitives::{
    deposited, lemma_ops_push, minus, mints_nothing, withdrawn, AccountId, Balance, CurrencyOp,
    EraIndex, Error, Identifier,
};
use crate::ratio::{perbill_mul, ratio_of, scaled_by, share_of};

verus! {

/// What a provider earns for an era: the era's reward, scaled by the provider's part in
/// what stood staked.
pub open spec fn provider_reward(points: StakingPoints, totals: EraRewardAndStake) -> Balance {
    scaled_by(ratio_of(points.total, totals.staked), totals.rewards)
}

/// What the operator takes of a provider's reward.
pub open spec fn operator_cut(percentage: u32, reward: Balance) -> Balance {
    let wanted = scaled_by(percentage, reward);
    if wanted <= reward {
        wanted
    } else {
        reward
    }
}

/// What the staker at `i` is due of `pot`: the pot scaled by the staker's part in the
/// provider's total.
pub open spec fn staker_share(
    stakers: Seq<StakerStake>,
    total: Balance,
    pot: Balance,
    i: int,
) -> Balance {
    scaled_by(ratio_of(stakers[i].amount, total), pot)
}

/// What is left of `pot` once the first `n` stakers were paid, each its share or what
/// was left, whichever is less.
pub open spec fn left_after(
    stakers: Seq<StakerStake>,
    total: Balance,
    pot: Balance,
    n: int,
) -> Balance
    decreases n,
{
    if n <= 0 {
        pot
    } else {
        minus(left_after(stakers, total, pot, n - 1), staker_share(stakers, total, pot, n - 1))
    }
}

/// What the staker at `i` is paid.
pub open spec fn staker_reward(
    stakers: Seq<StakerStake>,
    total: Balance,
    pot: Balance,
    i: int,
) -> Balance {
    let left = left_after(stakers, total, pot, i);
    let share = staker_share(stakers, total, pot, i);
    if share <= left {
        share
    } else {
        left
    }
}

/// The commands that pay the stakers, in the order of the stakers.
pub open spec fn staker_deposits(stakers: Seq<StakerStake>, total: Balance, pot: Balance) -> Seq<
    CurrencyOp,
> {
    Seq::new(
        stakers.len(),
        |i: int|
            CurrencyOp::Deposit {
                who: stakers[i].staker,
                amount: staker_reward(stakers, total, pot, i),
            },
    )
}

/// The events that report the stakers' rewards, in the order of the stakers.
pub open spec fn staker_events<Id: Identifier>(
    stakers: Seq<StakerStake>,
    total: Balance,
    pot: Balance,
    id: Id,
    era: EraIndex,
) -> Seq<Event<Id>> {
    Seq::new(
        stakers.len(),
        |i: int| Event::Reward(stakers[i].staker, id, era, staker_reward(stakers, total, pot, i)),
    )
}

/// Writing points in an era that differ from what the era read only in what was
/// claimed leaves the stakes that every era reads as they were.
pub proof fn lemma_claim_keeps_stakes(
    h: Seq<EraPoints>,
    h2: Seq<EraPoints>,
    written: EraIndex,
    p: StakingPoints,
    era: EraIndex,
)
    requires
        history_wf(h),
        points_at(h2, era) == points_after_write(h, written, p, era),
        p.unclaimed() == points_at(h, written).unclaimed(),
    ensures
        points_at(h2, era).unclaimed() == points_at(h, era).unclaimed(),
        era != written ==> points_at(h2, era) == points_at(h, era),
{
    if era > written && latest_era(h, era) <= written {
        lemma_points_at_fallback(h, written, era);
    }
}

impl<Id: Identifier> Pallet<Id> {
    /// The earliest era for which a reward can still be claimed.
    pub open spec fn era_low_bound(&self) -> EraIndex {
        if self.current_era >= self.config.history_depth {
            (self.current_era - self.config.history_depth) as u32
        } else {
            0
        }
    }

    /// Why a claim is refused, if it is.
    pub open spec fn claim_refusal(&self, id: Id, era: EraIndex) -> Option<Error> {
        let points = self.points_of(id, era);
        if !(self.era_low_bound() <= era < self.current_era) {
            Some(Error::EraOutOfBounds)
        } else if points.claimed_rewards != 0 {
            Some(Error::AlreadyClaimedInThisEra)
        } else if self.knows(id) && (self.providers@[index_of(self.providers@, id)].state
            matches ProviderState::Unregistered(unregistered_era, _) && era > unregistered_era) {
            Some(Error::NotOperatedProvider)
        } else if points.stakers.len() == 0 {
            Some(Error::NotStaked)
        } else if !self.era_rewards_and_stakes@.contains_key(era) {
            Some(Error::UnknownEraReward)
        } else if self.pool_balance < provider_reward(points, self.era_info(era)) {
            Some(Error::UnknownEraReward)
        } else {
            None
        }
    }

    /// Whether `self` is `before` after the reward of the provider `id` for `era` was
    /// claimed.
    pub open spec fn claimed_from(&self, before: &Pallet<Id>, id: Id, era: EraIndex) -> bool {
        let points = before.points_of(id, era);
        let reward = provider_reward(points, before.era_info(era));
        let pot = (reward - operator_cut(before.config.operator_reward_percentage, reward)) as u128;
        let residue = left_after(points.stakers, points.total, pot, points.stakers.len() as int);
        &&& self.config == before.config
        &&& self.current_era == before.current_era
        &&& self.block_reward_accumulator == before.block_reward_accumulator
        &&& self.force_era == before.force_era
        &&& self.pool_balance == before.pool_balance - (reward - residue)
        &&& self.ledger == before.ledger
        &&& self.era_rewards_and_stakes == before.era_rewards_and_stakes
        &&& self.points_written(
            before,
            index_of(before.providers@, id),
            era,
            StakingPoints { claimed_rewards: reward, ..points },
        )
    }

    /// Pays out the reward of the provider `id` for `era`, once: first the operator's
    /// cut, then each staker's share in ascending order of account. What rounding leaves
    /// over goes back to the pool. Anyone may call this.
    pub fn claim(&mut self, provider_id: Id, era: EraIndex) -> (r: Result<Outcome<Id>, Error>)
        requires
            old(self).wf(),
        ensures
            final(self).wf(),
            match r {
                Err(e) => old(self).claim_refusal(provider_id, era) == Some(e) && *final(self)
                    == *old(self),
                Ok(out) => {
                    let points = old(self).points_of(provider_id, era);
                    let reward = provider_reward(points, old(self).era_info(era));
                    let cut = operator_cut(old(self).config.operator_reward_percentage, reward);
                    let pot = (reward - cut) as u128;
                    let operator = old(self).providers@[index_of(
                        old(self).providers@,
                        provider_id,
                    )].operator;
                    let pool = old(self).config.pallet_account;
                    &&& old(self).claim_refusal(provider_id, era) is None
                    &&& final(self).claimed_from(old(self), provider_id, era)
                    &&& out.currency@ == seq![
                        CurrencyOp::Withdraw { who: pool, amount: reward },
                        CurrencyOp::Deposit { who: operator, amount: cut },
                    ] + staker_deposits(points.stakers, points.total, pot) + seq![
                        CurrencyOp::Deposit {
                            who: pool,
                            amount: left_after(
                                points.stakers,
                                points.total,
                                pot,
                                points.stakers.len() as int,
                            ),
                        },
                    ]
                    &&& out.events@ == seq![Event::Reward(operator, provider_id, era, cut)]
                        + staker_events(points.stakers, points.total, pot, provider_id, era)
                    &&& withdrawn(out.currency@) == reward
                    &&& deposited(out.currency@) == reward
                    &&& mints_nothing(out.currency@)
                },
            },
            old(self).ledgers_balance() ==> final(self).ledgers_balance(),
            old(self).era_totals_balance() ==> final(self).era_totals_balance(),
    {
        let current_era = self.current_era;
        let era_low_bound = current_era.saturating_sub(self.config.history_depth);
        if !(era < current_era && era >= era_low_bound) {
            return Err(Error::EraOutOfBounds);
        }
        let found = self.find(&provider_id);
        let mut staking_info = match found {
            Some(i) => self.providers[i].history.at(era),
            None => EraStakingPoints::default(),
        };
        if staking_info.claimed_rewards != 0 {
            return Err(Error::AlreadyClaimedInThisEra);
        }
        let idx = match found {
            Some(i) => i,
            None => {
                return Err(Error::NotStaked);
            },
        };
        match self.providers[idx].state {
            ProviderState::Registered => {},
            ProviderState::Unregistered(unregistered_era, _) => {
                if era > unregistered_era {
                    return Err(Error::NotOperatedProvider);
                }
            },
        }
        if staking_info.stakers.len() == 0 {
            return Err(Error::NotStaked);
        }
        let reward_and_stake = match self.era_reward_and_stake(era) {
            Some(e) => e,
            None => {
                return Err(Error::UnknownEraReward);
            },
        };
        let reward = share_of(
            staking_info.total,
            reward_and_stake.staked,
            reward_and_stake.rewards,
        );
        if self.pool_balance < reward {
            return Err(Error::UnknownEraReward);
        }
        let operator = self.providers[idx].operator;
        let pool = self.config.pallet_account;
        let ghost stakers = staking_info.stakers@;
        let total = staking_info.total;

        let mut currency: Vec<CurrencyOp> = Vec::new();
        let mut events: Vec<Event<Id>> = Vec::new();
        proof {
            assert(crate::primitives::deposit_amounts(currency@) =~= Seq::<nat>::empty());
            assert(crate::primitives::withdraw_amounts(currency@) =~= Seq::<nat>::empty());
            lemma_ops_push(currency@, CurrencyOp::Withdraw { who: pool, amount: reward });
        }
        currency.push(CurrencyOp::Withdraw { who: pool, amount: reward });

        let wanted = perbill_mul(self.config.operator_reward_percentage, reward);
        let cut = if wanted <= reward {
            wanted
        } else {
            reward
        };
        let pot = reward - cut;
        proof {
            lemma_ops_push(currency@, CurrencyOp::Deposit { who: operator, amount: cut });
        }
        currency.push(CurrencyOp::Deposit { who: operator, amount: cut });
        events.push(Event::Reward(operator, provider_id, era, cut));

        let ghost head = currency@;
        let ghost first = events@;
        let mut left = pot;
        let mut i: usize = 0;
        while i < staking_info.stakers.len()
            invariant
                i <= staking_info.stakers.len(),
                staking_info.stakers@ == stakers,
                staking_info.total == total,
                left == left_after(stakers, total, pot, i as int),
                currency@ == head + staker_deposits(stakers, total, pot).take(i as int),
                events@ == first + staker_events(stakers, total, pot, provider_id, era).take(
                    i as int,
                ),
                deposited(currency@) + left == reward,
                withdrawn(currency@) == reward,
                mints_nothing(currency@),
            decreases staking_info.stakers.len() - i,
        {
            let entry = staking_info.stakers[i];
            let share = share_of(entry.amount, total, pot);
            let pay = if share <= left {
                share
            } else {
                left
            };
            proof {
                let op = CurrencyOp::Deposit { who: entry.staker, amount: pay };
                lemma_ops_push(currency@, op);
                let all = staker_deposits(stakers, total, pot);
                assert(all.take(i + 1) =~= all.take(i as int).push(op));
                assert(head + all.take(i + 1) =~= (head + all.take(i as int)).push(op));
                let evs = staker_events(stakers, total, pot, provider_id, era);
                let ev = Event::Reward(entry.staker, provider_id, era, pay);
                assert(evs.take(i + 1) =~= evs.take(i as int).push(ev));
                assert(first + evs.take(i + 1) =~= (first + evs.take(i as int)).push(ev));
            }
            left = left - pay;
            currency.push(CurrencyOp::Deposit { who: entry.staker, amount: pay });
            events.push(Event::Reward(entry.staker, provider_id, era, pay));
            i += 1;
        }
        proof {
            lemma_ops_push(currency@, CurrencyOp::Deposit { who: pool, amount: left });
            let all = staker_deposits(stakers, total, pot);
            assert(all.take(i as int) =~= all);
            let evs = staker_events(stakers, total, pot, provider_id, era);
            assert(evs.take(i as int) =~= evs);
            old(self).lemma_points_within(idx as int, era);
        }
        currency.push(CurrencyOp::Deposit { who: pool, amount: left });

        self.pool_balance = self.pool_balance - (reward - left);
        staking_info.claimed_rewards = reward;
        let ghost written = staking_info@;
        self.write_points(idx, era, staking_info);
        proof {
            let ps = old(self).providers@;
            let ps2 = self.providers@;
            let h = ps[idx as int].history.entries@;
            let h2 = ps2[idx as int].history.entries@;
            assert forall|j: int| 0 <= j < ps.len() && j != idx implies ps2[j].history
                == ps[j].history by {
                assert(ps2[j] == ps[j]);
            }
            if old(self).ledgers_balance() {
                assert forall|w: AccountId| #[trigger]
                    self.locked_of(w) == staked_by(ps2, current_era, w) + chunks_total(
                        self.unbonding_of(w),
                    ) by {
                    assert(old(self).locked_of(w) == staked_by(ps, current_era, w) + chunks_total(
                        old(self).unbonding_of(w),
                    ));
                    assert(points_at(h2, current_era) == points_after_write(
                        h,
                        era,
                        written,
                        current_era,
                    ));
                    lemma_claim_keeps_stakes(h, h2, era, written, current_era);
                    lemma_one_provider_differs(ps, ps2, idx as int, current_era, w);
                }
            }
            if old(self).era_totals_balance() {
                assert forall|e: EraIndex| e <= current_era implies (#[trigger] self.era_info(
                    e,
                )).staked == total_staked(ps2, e) by {
                    assert(old(self).era_info(e).staked == total_staked(ps, e));
                    assert(points_at(h2, e) == points_after_write(h, era, written, e));
                    lemma_claim_keeps_stakes(h, h2, era, written, e);
                    lemma_one_provider_differs(ps, ps2, idx as int, e, operator);
                }
            }
        }
        Ok(Outcome { currency, events })
    }
}

} // verus!
