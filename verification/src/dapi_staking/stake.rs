//! Staking on a provider, unstaking from it, and withdrawing what has unbonded.

use vstd::prelude::*;
use crate::dapi_staking::history::points_at;
use crate::dapi_staking::pallet::{
    index_of, lemma_one_provider_differs, provider_stakes, provider_totals, staked_by,
    total_staked, Pallet,
};
use crate::dapi_staking::points::{
    credited, debited, lemma_credited, lemma_debited, lemma_stake_of, stake_of, StakingPoints,
};
use crate::dapi_staking::types::{
    AccountLedger, EraRewardAndStake, Event, Outcome, ProviderState,
};
use crate::dapi_staking::unbonding::{
    chunks_total, has_era, lemma_with_chunk, matured, pending, with_chunk, UnlockingChunk,
};
use crate::primitives::{
    capped, minus, mints_nothing, AccountId, Balance, CurrencyOp, EraIndex, Error, Identifier,
};
use crate::sums::lemma_sum_bounds_element;

verus! {

/// What an unstake of `value` takes from a stake of `current`: `value`, or all of it
/// where less than `minimum` would be left.
pub open spec fn unbond_amount(current: Balance, value: Balance, minimum: Balance) -> Balance {
    if value >= current || current - value < minimum {
        current
    } else {
        value
    }
}

impl<Id: Identifier> Pallet<Id> {
    /// What a request to stake `value` comes to for `staker`: no more than what is free
    /// beyond the minimum that has to remain and beyond what is locked already.
    pub open spec fn stakeable(
        &self,
        staker: AccountId,
        value: Balance,
        free_balance: Balance,
    ) -> Balance {
        let available = minus(
            minus(free_balance, self.config.minimum_remaining_amount),
            self.locked_of(staker),
        );
        if value <= available {
            value
        } else {
            available
        }
    }

    /// Why a stake is refused, if it is.
    pub open spec fn stake_refusal(
        &self,
        staker: AccountId,
        id: Id,
        value: Balance,
        free_balance: Balance,
    ) -> Option<Error> {
        let amount = self.stakeable(staker, value, free_balance);
        let points = self.points_of(id, self.current_era);
        if !self.operates(id) {
            Some(Error::NotOperatedProvider)
        } else if amount == 0 {
            Some(Error::StakingWithNoValue)
        } else if stake_of(points.stakers, staker) == 0 && points.stakers.len()
            >= self.config.max_stakers_per_provider {
            Some(Error::MaxStakersExceeded)
        } else if points.total + amount > u128::MAX {
            Some(Error::Overflow)
        } else {
            None
        }
    }

    /// Whether `self` is `before` after `staker` staked `amount` on the provider `id`.
    pub open spec fn staked_from(
        &self,
        before: &Pallet<Id>,
        staker: AccountId,
        id: Id,
        amount: Balance,
    ) -> bool {
        let era = before.current_era;
        let points = before.points_of(id, era);
        let totals = before.era_info(era);
        &&& self.same_settings(before)
        &&& self.locked_of(staker) == before.locked_of(staker) + amount
        &&& self.unbonding_of(staker) == before.unbonding_of(staker)
        &&& self.same_ledgers_but(before, staker)
        &&& self.points_written(
            before,
            index_of(before.providers@, id),
            era,
            StakingPoints {
                total: (points.total + amount) as u128,
                stakers: credited(points.stakers, staker, amount),
                claimed_rewards: points.claimed_rewards,
            },
        )
        &&& self.era_rewards_and_stakes@ == before.era_rewards_and_stakes@.insert(
            era,
            EraRewardAndStake {
                rewards: totals.rewards,
                staked: capped(totals.staked + amount),
                locked: capped(totals.locked + amount),
            },
        )
    }

    /// Locks balance of `staker` and stakes it on the provider `id`. `value` is what the
    /// staker asks for and `free_balance` what the account holds free; what is staked is
    /// `value` cut down to what the account can spare. The stake counts from the running
    /// era on.
    pub fn stake(
        &mut self,
        staker: AccountId,
        provider_id: Id,
        value: Balance,
        free_balance: Balance,
    ) -> (r: Result<Outcome<Id>, Error>)
        requires
            old(self).wf(),
        ensures
            final(self).wf(),
            match r {
                Err(e) => old(self).stake_refusal(staker, provider_id, value, free_balance)
                    == Some(e) && *final(self) == *old(self),
                Ok(out) => {
                    let amount = old(self).stakeable(staker, value, free_balance);
                    &&& old(self).stake_refusal(staker, provider_id, value, free_balance) is None
                    &&& final(self).staked_from(old(self), staker, provider_id, amount)
                    &&& out.currency@ == seq![
                        CurrencyOp::SetLock {
                            who: staker,
                            amount: (old(self).locked_of(staker) + amount) as u128,
                        },
                    ]
                    &&& out.events@ == seq![Event::Stake(staker, provider_id, amount)]
                    &&& mints_nothing(out.currency@)
                },
            },
            old(self).ledgers_balance() ==> final(self).ledgers_balance(),
            old(self).era_totals_balance() && old(self).era_info(old(self).current_era).staked
                + old(self).stakeable(staker, value, free_balance) <= u128::MAX
                ==> final(self).era_totals_balance(),
    {
        let idx = match self.find(&provider_id) {
            Some(i) => i,
            None => {
                return Err(Error::NotOperatedProvider);
            },
        };
        match self.providers[idx].state {
            ProviderState::Registered => {},
            ProviderState::Unregistered(_, _) => {
                return Err(Error::NotOperatedProvider);
            },
        }
        let mut ledger = self.ledger(staker);
        let free = free_balance.saturating_sub(self.config.minimum_remaining_amount);
        let available = free.saturating_sub(ledger.locked);
        let amount = if value <= available {
            value
        } else {
            available
        };
        if amount == 0 {
            return Err(Error::StakingWithNoValue);
        }
        let era = self.current_era;
        let mut points = self.providers[idx].history.at(era);
        let max_stakers = self.config.max_stakers_per_provider;
        if points.staked_by(staker) == 0 && points.stakers.len() >= max_stakers as usize {
            return Err(Error::MaxStakersExceeded);
        }
        if points.total > u128::MAX - amount {
            return Err(Error::Overflow);
        }
        proof {
            lemma_stake_of(points.stakers@, staker);
            lemma_credited(points.stakers@, staker, amount);
            old(self).lemma_points_within(idx as int, era);
        }
        ledger.locked = ledger.locked + amount;
        points.credit(staker, amount);

        let mut totals = match self.era_reward_and_stake(era) {
            Some(e) => e,
            None => EraRewardAndStake::default(),
        };
        totals.staked = totals.staked.saturating_add(amount);
        totals.locked = totals.locked.saturating_add(amount);
        self.era_rewards_and_stakes.insert(era, totals);

        let op = self.update_ledger(staker, ledger);
        let ghost written = points@;
        self.write_points(idx, era, points);

        let mut currency: Vec<CurrencyOp> = Vec::new();
        currency.push(op);
        let mut events: Vec<Event<Id>> = Vec::new();
        events.push(Event::Stake(staker, provider_id, amount));
        proof {
            lemma_points_moved(*old(self), *self, idx as int, era, written, staker, amount as int);
            if old(self).ledgers_balance() {
                assert forall|w: AccountId| #[trigger]
                    self.locked_of(w) == staked_by(self.providers@, self.current_era, w)
                        + chunks_total(self.unbonding_of(w)) by {
                    assert(old(self).locked_of(w) == staked_by(old(self).providers@, era, w)
                        + chunks_total(old(self).unbonding_of(w)));
                    if w != staker {
                        assert(self.ledger@.contains_key(w) == old(self).ledger@.contains_key(w));
                    }
                }
            }
            if old(self).era_totals_balance() && old(self).era_info(era).staked + amount
                <= u128::MAX {
                assert forall|e: EraIndex| e <= self.current_era implies (#[trigger] self.era_info(
                    e,
                )).staked == total_staked(self.providers@, e) by {
                    assert(old(self).era_info(e).staked == total_staked(old(self).providers@, e));
                }
            }
        }
        Ok(Outcome { currency, events })
    }
}

impl<Id: Identifier> Pallet<Id> {
    /// Why an unstake is refused, if it is.
    pub open spec fn unstake_refusal(
        &self,
        staker: AccountId,
        id: Id,
        value: Balance,
    ) -> Option<Error> {
        let points = self.points_of(id, self.current_era);
        let queue = self.unbonding_of(staker);
        let unlock_era = self.current_era + self.config.unbonding_period;
        if !self.operates(id) {
            Some(Error::NotOperatedProvider)
        } else if value == 0 {
            Some(Error::UnstakingWithNoValue)
        } else if stake_of(points.stakers, staker) == 0 {
            Some(Error::NotStaked)
        } else if unlock_era > u32::MAX {
            Some(Error::Overflow)
        } else if !has_era(queue, unlock_era as u32) && queue.len()
            >= self.config.max_unlocking_chunks {
            Some(Error::TooManyUnlockingChunks)
        } else {
            None
        }
    }

    /// Whether `self` is `before` after `staker` took `amount` out of the stake on the
    /// provider `id` and put it into the unbonding queue, to unlock in `unlock_era`.
    pub open spec fn unstaked_from(
        &self,
        before: &Pallet<Id>,
        staker: AccountId,
        id: Id,
        amount: Balance,
        unlock_era: EraIndex,
    ) -> bool {
        let era = before.current_era;
        let points = before.points_of(id, era);
        let totals = before.era_info(era);
        &&& self.same_settings(before)
        &&& self.locked_of(staker) == before.locked_of(staker)
        &&& self.unbonding_of(staker) == with_chunk(
            before.unbonding_of(staker),
            UnlockingChunk { amount, unlock_era },
        )
        &&& self.same_ledgers_but(before, staker)
        &&& self.points_written(
            before,
            index_of(before.providers@, id),
            era,
            StakingPoints {
                total: (points.total - amount) as u128,
                stakers: debited(points.stakers, staker, amount),
                claimed_rewards: points.claimed_rewards,
            },
        )
        &&& self.era_rewards_and_stakes@ == before.era_rewards_and_stakes@.insert(
            era,
            EraRewardAndStake { staked: minus(totals.staked, amount), ..totals },
        )
    }

    /// Takes `amount` out of the stake of `staker` on the provider at `idx` and queues
    /// it to unlock in `unlock_era`. What the staker has locked stays as it is.
    pub(crate) fn unbond(
        &mut self,
        idx: usize,
        staker: AccountId,
        amount: Balance,
        unlock_era: EraIndex,
    ) -> (op: CurrencyOp)
        requires
            old(self).wf(),
            idx < old(self).providers@.len(),
            0 < amount <= stake_of(
                points_at(
                    old(self).providers@[idx as int].history.entries@,
                    old(self).current_era,
                ).stakers,
                staker,
            ),
            has_era(old(self).unbonding_of(staker), unlock_era) || old(self).unbonding_of(
                staker,
            ).len() < old(self).config.max_unlocking_chunks,
        ensures
            final(self).wf(),
            final(self).unstaked_from(
                old(self),
                staker,
                old(self).providers@[idx as int].id,
                amount,
                unlock_era,
            ),
            op == (CurrencyOp::SetLock { who: staker, amount: old(self).locked_of(staker) }),
            old(self).ledgers_balance() ==> final(self).ledgers_balance(),
            old(self).era_totals_balance() ==> final(self).era_totals_balance(),
    {
        let era = self.current_era;
        let mut ledger = self.ledger(staker);
        let mut points = self.providers[idx].history.at(era);
        proof {
            old(self).lemma_points_within(idx as int, era);
            lemma_stake_of(points.stakers@, staker);
            lemma_debited(points.stakers@, staker, amount);
            lemma_with_chunk(ledger.unbonding_info@, UnlockingChunk { amount, unlock_era });
        }
        points.debit(staker, amount);
        ledger.unbonding_info.add(UnlockingChunk { amount, unlock_era });

        let mut totals = match self.era_reward_and_stake(era) {
            Some(e) => e,
            None => EraRewardAndStake::default(),
        };
        totals.staked = totals.staked.saturating_sub(amount);
        self.era_rewards_and_stakes.insert(era, totals);

        let op = self.update_ledger(staker, ledger);
        let ghost written = points@;
        self.write_points(idx, era, points);
        proof {
            lemma_points_moved(
                *old(self),
                *self,
                idx as int,
                era,
                written,
                staker,
                -(amount as int),
            );
            if old(self).ledgers_balance() {
                assert forall|w: AccountId| #[trigger]
                    self.locked_of(w) == staked_by(self.providers@, self.current_era, w)
                        + chunks_total(self.unbonding_of(w)) by {
                    assert(old(self).locked_of(w) == staked_by(old(self).providers@, era, w)
                        + chunks_total(old(self).unbonding_of(w)));
                    if w != staker {
                        assert(self.ledger@.contains_key(w) == old(self).ledger@.contains_key(w));
                    }
                }
            }
            if old(self).era_totals_balance() {
                assert forall|e: EraIndex| e <= self.current_era implies (#[trigger] self.era_info(
                    e,
                )).staked == total_staked(self.providers@, e) by {
                    assert(old(self).era_info(e).staked == total_staked(old(self).providers@, e));
                }
            }
        }
        op
    }

    /// Begins to unbond stake of `staker` from the provider `id`: `value`, or the whole
    /// stake where less than the minimum staking amount would be left. The amount joins
    /// the unbonding queue and unlocks after the unbonding period; it stays locked until
    /// it is withdrawn.
    pub fn unstake(&mut self, staker: AccountId, provider_id: Id, value: Balance) -> (r:
        Result<Outcome<Id>, Error>)
        requires
            old(self).wf(),
        ensures
            final(self).wf(),
            match r {
                Err(e) => old(self).unstake_refusal(staker, provider_id, value) == Some(e)
                    && *final(self) == *old(self),
                Ok(out) => {
                    let amount = unbond_amount(
                        stake_of(
                            old(self).points_of(provider_id, old(self).current_era).stakers,
                            staker,
                        ) as u128,
                        value,
                        old(self).config.minimum_staking_amount,
                    );
                    &&& old(self).unstake_refusal(staker, provider_id, value) is None
                    &&& final(self).unstaked_from(
                        old(self),
                        staker,
                        provider_id,
                        amount,
                        (old(self).current_era + old(self).config.unbonding_period) as u32,
                    )
                    &&& out.currency@ == seq![
                        CurrencyOp::SetLock { who: staker, amount: old(self).locked_of(staker) },
                    ]
                    &&& out.events@ == seq![Event::Unstake(staker, provider_id, amount)]
                    &&& mints_nothing(out.currency@)
                },
            },
            old(self).ledgers_balance() ==> final(self).ledgers_balance(),
            old(self).era_totals_balance() ==> final(self).era_totals_balance(),
    {
        let idx = match self.find(&provider_id) {
            Some(i) => i,
            None => {
                return Err(Error::NotOperatedProvider);
            },
        };
        match self.providers[idx].state {
            ProviderState::Registered => {},
            ProviderState::Unregistered(_, _) => {
                return Err(Error::NotOperatedProvider);
            },
        }
        if value == 0 {
            return Err(Error::UnstakingWithNoValue);
        }
        let era = self.current_era;
        let points = self.providers[idx].history.at(era);
        let current = points.staked_by(staker);
        if current == 0 {
            return Err(Error::NotStaked);
        }
        if self.config.unbonding_period > u32::MAX - era {
            return Err(Error::Overflow);
        }
        let unlock_era = era + self.config.unbonding_period;
        let ledger = self.ledger(staker);
        if !ledger.unbonding_info.unlocks_in(unlock_era) && ledger.unbonding_info.count()
            >= self.config.max_unlocking_chunks as usize {
            return Err(Error::TooManyUnlockingChunks);
        }
        let amount = if value >= current || current - value < self.config.minimum_staking_amount {
            current
        } else {
            value
        };
        let op = self.unbond(idx, staker, amount, unlock_era);
        let mut currency: Vec<CurrencyOp> = Vec::new();
        currency.push(op);
        let mut events: Vec<Event<Id>> = Vec::new();
        events.push(Event::Unstake(staker, provider_id, amount));
        Ok(Outcome { currency, events })
    }

    /// What `staker` can withdraw in the running era: the unbonding amounts that have
    /// unlocked, cut down to the largest balance.
    pub open spec fn withdrawable(&self, staker: AccountId) -> Balance {
        capped(chunks_total(matured(self.unbonding_of(staker), self.current_era)) as int)
    }

    /// Whether `self` is `before` after `staker` withdrew what had unlocked.
    pub open spec fn withdrawn_from(&self, before: &Pallet<Id>, staker: AccountId) -> bool {
        let era = before.current_era;
        let totals = before.era_info(era);
        let amount = before.withdrawable(staker);
        &&& self.same_settings(before)
        &&& self.locked_of(staker) == minus(before.locked_of(staker), amount)
        &&& self.unbonding_of(staker) == pending(before.unbonding_of(staker), era)
        &&& self.same_ledgers_but(before, staker)
        &&& self.providers == before.providers
        &&& self.era_rewards_and_stakes@ == before.era_rewards_and_stakes@.insert(
            era,
            EraRewardAndStake { locked: minus(totals.locked, amount), ..totals },
        )
    }

    /// Releases what of the unbonding queue of `staker` has unlocked by the running era.
    /// A ledger that is left empty is dropped and its lock removed.
    pub fn withdraw_unbonded(&mut self, staker: AccountId) -> (r: Result<Outcome<Id>, Error>)
        requires
            old(self).wf(),
        ensures
            final(self).wf(),
            match r {
                Err(e) => e == Error::NothingToWithdraw && old(self).withdrawable(staker) == 0
                    && *final(self) == *old(self),
                Ok(out) => {
                    let amount = old(self).withdrawable(staker);
                    &&& amount > 0
                    &&& final(self).withdrawn_from(old(self), staker)
                    &&& out.currency@ == seq![
                        if final(self).ledger@.contains_key(staker) {
                            CurrencyOp::SetLock {
                                who: staker,
                                amount: final(self).locked_of(staker),
                            }
                        } else {
                            CurrencyOp::RemoveLock { who: staker }
                        },
                    ]
                    &&& final(self).ledger@.contains_key(staker) == (final(self).locked_of(staker)
                        > 0 || final(self).unbonding_of(staker).len() > 0)
                    &&& out.events@ == seq![Event::<Id>::Withdrawn(staker, amount)]
                    &&& mints_nothing(out.currency@)
                },
            },
            old(self).ledgers_balance() ==> final(self).ledgers_balance(),
            old(self).era_totals_balance() ==> final(self).era_totals_balance(),
    {
        let era = self.current_era;
        let ledger = self.ledger(staker);
        let locked = ledger.locked;
        let ghost queue = ledger.unbonding_info@;
        let (valid, future) = ledger.unbonding_info.partition(era);
        let amount = valid.sum();
        if amount == 0 {
            return Err(Error::NothingToWithdraw);
        }
        let ledger = AccountLedger {
            locked: locked.saturating_sub(amount),
            unbonding_info: future,
        };

        let mut totals = match self.era_reward_and_stake(era) {
            Some(e) => e,
            None => EraRewardAndStake::default(),
        };
        totals.locked = totals.locked.saturating_sub(amount);
        self.era_rewards_and_stakes.insert(era, totals);

        let op = self.update_ledger(staker, ledger);
        let mut currency: Vec<CurrencyOp> = Vec::new();
        currency.push(op);
        let mut events: Vec<Event<Id>> = Vec::new();
        events.push(Event::Withdrawn(staker, amount));
        proof {
            if old(self).ledgers_balance() {
                assert forall|w: AccountId| #[trigger]
                    self.locked_of(w) == staked_by(self.providers@, self.current_era, w)
                        + chunks_total(self.unbonding_of(w)) by {
                    assert(old(self).locked_of(w) == staked_by(old(self).providers@, era, w)
                        + chunks_total(old(self).unbonding_of(w)));
                    if w != staker {
                        assert(self.ledger@.contains_key(w) == old(self).ledger@.contains_key(w));
                    }
                }
            }
            if old(self).era_totals_balance() {
                assert forall|e: EraIndex| e <= self.current_era implies (#[trigger] self.era_info(
                    e,
                )).staked == total_staked(self.providers@, e) by {
                    assert(old(self).era_info(e).staked == total_staked(old(self).providers@, e));
                }
            }
        }
        Ok(Outcome { currency, events })
    }
}

/// Where the stake points of one provider were rewritten in the running era so that one
/// staker holds `delta` more (or, if negative, less) and the total moved alike, the
/// stake of that staker summed over all providers moved by `delta`, and so did what
/// stands staked in the running era; no other staker and no earlier era has moved.
pub proof fn lemma_points_moved<Id: Identifier>(
    before: Pallet<Id>,
    after: Pallet<Id>,
    idx: int,
    era: EraIndex,
    p: StakingPoints,
    staker: AccountId,
    delta: int,
)
    requires
        before.wf(),
        after.points_written(&before, idx, era, p),
        era == before.current_era,
        after.current_era == era,
        p.total == points_at(before.providers@[idx].history.entries@, era).total + delta,
        forall|w: AccountId| #[trigger]
            stake_of(p.stakers, w) == stake_of(
                points_at(before.providers@[idx].history.entries@, era).stakers,
                w,
            ) + if w == staker {
                delta
            } else {
                0int
            },
    ensures
        forall|w: AccountId| #[trigger]
            staked_by(after.providers@, era, w) == staked_by(before.providers@, era, w) + if w
                == staker {
                delta
            } else {
                0int
            },
        total_staked(after.providers@, era) == total_staked(before.providers@, era) + delta,
        forall|e: EraIndex|
            e < era ==> #[trigger] total_staked(after.providers@, e) == total_staked(
                before.providers@,
                e,
            ),
        stake_of(points_at(before.providers@[idx].history.entries@, era).stakers, staker)
            <= staked_by(before.providers@, era, staker),
        points_at(before.providers@[idx].history.entries@, era).total <= total_staked(
            before.providers@,
            era,
        ),
{
    let ps = before.providers@;
    let ps2 = after.providers@;
    let h = ps[idx].history.entries@;
    let h2 = ps2[idx].history.entries@;
    assert forall|j: int| 0 <= j < ps.len() && j != idx implies ps2[j].history
        == ps[j].history by {
        assert(ps2[j] == ps[j]);
    }
    assert(points_at(h2, era) == p);
    assert forall|w: AccountId| #[trigger]
        staked_by(ps2, era, w) == staked_by(ps, era, w) + if w == staker {
            delta
        } else {
            0int
        } by {
        lemma_one_provider_differs(ps, ps2, idx, era, w);
        assert(stake_of(p.stakers, w) == stake_of(points_at(h, era).stakers, w) + if w == staker {
            delta
        } else {
            0int
        });
    }
    lemma_one_provider_differs(ps, ps2, idx, era, staker);
    assert forall|e: EraIndex| e < era implies #[trigger] total_staked(ps2, e) == total_staked(
        ps,
        e,
    ) by {
        assert(points_at(h2, e) == points_at(h, e));
        lemma_one_provider_differs(ps, ps2, idx, e, staker);
    }
    lemma_sum_bounds_element(provider_stakes(ps, era, staker), idx);
    lemma_sum_bounds_element(provider_totals(ps, era), idx);
}

} // verus!
