//! The life of a provider: registered with a first stake of its operator, unregistered,
//! and drained by its stakers afterwards.

use vstd::prelude::*;
use crate::dapi_staking::history::{
    entry_eras, has_entry, points_after_write, points_at, StakeHistory,
};
use crate::dapi_staking::pallet::{
    index_of, lemma_index_is, lemma_index_of, lemma_one_provider_differs, lemma_provider_joins,
    provider_wf, staked_by, total_staked, Pallet,
};
use crate::dapi_staking::points::{credited, stake_of, stakes_held, StakingPoints};
use crate::dapi_staking::types::{
    EraRewardAndStake, Event, Outcome, ProviderInfo, ProviderState,
};
use crate::dapi_staking::unbonding::{chunks_total, has_era};
use crate::primitives::{
    capped, minus, mints_nothing, AccountId, Balance, CurrencyOp, EraIndex, Error, Identifier,
};

verus! {

impl<Id: Identifier> Pallet<Id> {
    /// What the operator's first stake comes to when a provider is registered with
    /// `deposit`: the deposit less what is reserved, cut down to what the account can
    /// spare once that is reserved.
    pub open spec fn first_stake(
        &self,
        operator: AccountId,
        deposit: Balance,
        free_balance: Balance,
    ) -> Balance {
        self.stakeable(
            operator,
            minus(deposit, self.config.register_deposit),
            minus(free_balance, self.config.register_deposit),
        )
    }

    /// Why a registration is refused, if it is.
    pub open spec fn register_refusal(
        &self,
        operator: AccountId,
        id: Id,
        deposit: Balance,
        free_balance: Balance,
    ) -> Option<Error> {
        if self.knows(id) {
            Some(Error::AlreadyExist)
        } else if deposit < self.config.min_provider_deposit {
            Some(Error::InsufficientValue)
        } else if free_balance < self.config.register_deposit {
            Some(Error::InsufficientBonding)
        } else if self.first_stake(operator, deposit, free_balance) == 0 {
            Some(Error::StakingWithNoValue)
        } else if self.config.max_stakers_per_provider == 0 {
            Some(Error::MaxStakersExceeded)
        } else {
            None
        }
    }

    /// Whether `self` is `before` after `operator` registered the provider `id` and
    /// staked `amount` on it.
    pub open spec fn registered_from(
        &self,
        before: &Pallet<Id>,
        operator: AccountId,
        id: Id,
        amount: Balance,
    ) -> bool {
        let era = before.current_era;
        let totals = before.era_info(era);
        let n = before.providers@.len() as int;
        let first = StakingPoints {
            total: amount,
            stakers: credited(Seq::empty(), operator, amount),
            claimed_rewards: 0,
        };
        &&& self.same_settings(before)
        &&& self.locked_of(operator) == before.locked_of(operator) + amount
        &&& self.unbonding_of(operator) == before.unbonding_of(operator)
        &&& self.same_ledgers_but(before, operator)
        &&& self.providers@.len() == n + 1
        &&& forall|j: int| 0 <= j < n ==> #[trigger] self.providers@[j] == before.providers@[j]
        &&& self.providers@[n].id == id
        &&& self.providers@[n].operator == operator
        &&& self.providers@[n].state == ProviderState::Registered
        &&& forall|e: EraIndex| #[trigger]
            points_at(self.providers@[n].history.entries@, e) == points_after_write(
                Seq::empty(),
                era,
                first,
                e,
            )
        &&& forall|e: EraIndex| #[trigger]
            has_entry(self.providers@[n].history.entries@, e) == (e == era)
        &&& self.era_rewards_and_stakes@ == before.era_rewards_and_stakes@.insert(
            era,
            EraRewardAndStake {
                rewards: totals.rewards,
                staked: capped(totals.staked + amount),
                locked: capped(totals.locked + amount),
            },
        )
    }

    /// Registers the provider `id` for `operator`. Of `deposit` the register deposit is
    /// reserved, and the rest is staked on the provider as the operator's own stake, cut
    /// down to what the account can spare. `free_balance` is what the account holds free.
    pub fn register(
        &mut self,
        operator: AccountId,
        provider_id: Id,
        deposit: Balance,
        free_balance: Balance,
    ) -> (r: Result<Outcome<Id>, Error>)
        requires
            old(self).wf(),
        ensures
            final(self).wf(),
            match r {
                Err(e) => old(self).register_refusal(operator, provider_id, deposit, free_balance)
                    == Some(e) && *final(self) == *old(self),
                Ok(out) => {
                    let amount = old(self).first_stake(operator, deposit, free_balance);
                    &&& old(self).register_refusal(operator, provider_id, deposit, free_balance)
                        is None
                    &&& final(self).registered_from(old(self), operator, provider_id, amount)
                    &&& out.currency@ == seq![
                        CurrencyOp::Reserve {
                            who: operator,
                            amount: old(self).config.register_deposit,
                        },
                        CurrencyOp::SetLock {
                            who: operator,
                            amount: (old(self).locked_of(operator) + amount) as u128,
                        },
                    ]
                    &&& out.events@ == seq![Event::Stake(operator, provider_id, amount)]
                    &&& mints_nothing(out.currency@)
                },
            },
            old(self).ledgers_balance() ==> final(self).ledgers_balance(),
            old(self).era_totals_balance() && old(self).era_info(old(self).current_era).staked
                + old(self).first_stake(operator, deposit, free_balance) <= u128::MAX
                ==> final(self).era_totals_balance(),
    {
        if self.find(&provider_id).is_some() {
            return Err(Error::AlreadyExist);
        }
        if deposit < self.config.min_provider_deposit {
            return Err(Error::InsufficientValue);
        }
        let reserved = self.config.register_deposit;
        if free_balance < reserved {
            return Err(Error::InsufficientBonding);
        }
        let value = deposit.saturating_sub(reserved);
        let free = free_balance - reserved;
        let free_to_stake = free.saturating_sub(self.config.minimum_remaining_amount);
        let available = free_to_stake.saturating_sub(self.ledger(operator).locked);
        if value == 0 || available == 0 {
            return Err(Error::StakingWithNoValue);
        }
        if self.config.max_stakers_per_provider == 0 {
            return Err(Error::MaxStakersExceeded);
        }
        let ghost n = self.providers@.len() as int;
        let era = self.current_era;
        self.providers.push(
            ProviderInfo {
                id: provider_id,
                operator,
                state: ProviderState::Registered,
                history: StakeHistory::new(),
            },
        );
        let ghost mid = *self;
        proof {
            let ps = old(self).providers@;
            let ps2 = self.providers@;
            lemma_index_of(ps, provider_id);
            assert forall|i: int, j: int| 0 <= i < j < ps2.len() implies ps2[i].id
                != ps2[j].id by {
                if j < n {
                    assert(ps2[i] == ps[i] && ps2[j] == ps[j]);
                } else {
                    assert(ps2[i] == ps[i]);
                    assert(ps[i].id != provider_id);
                }
            }
            assert forall|i: int| 0 <= i < ps2.len() implies provider_wf(
                #[trigger] ps2[i],
                self.current_era,
                self.config.max_stakers_per_provider,
            ) by {
                if i < n {
                    assert(ps2[i] == ps[i]);
                    assert(provider_wf(
                        ps[i],
                        self.current_era,
                        self.config.max_stakers_per_provider,
                    ));
                }
            }
            lemma_index_is(ps2, provider_id, n);
            assert(entry_eras(ps2[n].history.entries@) =~= Seq::<int>::empty());
            assert(points_at(ps2[n].history.entries@, era) == StakingPoints::empty());
            assert(stakes_held(Seq::empty(), operator) =~= Seq::<nat>::empty());
            assert(self.stake_refusal(operator, provider_id, value, free) is None);
            if old(self).ledgers_balance() {
                assert forall|w: AccountId| #[trigger]
                    self.locked_of(w) == staked_by(ps2, era, w) + chunks_total(
                        self.unbonding_of(w),
                    ) by {
                    assert(old(self).locked_of(w) == staked_by(ps, era, w) + chunks_total(
                        old(self).unbonding_of(w),
                    ));
                    lemma_provider_joins(ps, ps2[n], era, w);
                    assert(ps2 =~= ps.push(ps2[n]));
                }
            }
            if old(self).era_totals_balance() {
                assert forall|e: EraIndex| e <= era implies (#[trigger] self.era_info(e)).staked
                    == total_staked(ps2, e) by {
                    assert(old(self).era_info(e).staked == total_staked(ps, e));
                    lemma_provider_joins(ps, ps2[n], e, operator);
                    assert(ps2 =~= ps.push(ps2[n]));
                }
            }
        }
        match self.stake(operator, provider_id, value, free) {
            Ok(staked) => {
                let mut currency: Vec<CurrencyOp> = Vec::new();
                currency.push(CurrencyOp::Reserve { who: operator, amount: reserved });
                currency.push(staked.currency[0]);
                proof {
                    assert forall|j: int| 0 <= j < n implies #[trigger] self.providers@[j]
                        == old(self).providers@[j] by {
                        assert(self.providers@[j] == mid.providers@[j]);
                    }
                }
                Ok(Outcome { currency, events: staked.events })
            },
            Err(e) => {
                // not reached: nothing stands in the way of a first stake on a new provider
                proof {
                    assert(false);
                }
                Err(e)
            },
        }
    }

    /// Why an unregistration is refused, if it is.
    pub open spec fn unregister_refusal(&self, id: Id) -> Option<Error> {
        if !self.operates(id) {
            Some(Error::NotOperatedProvider)
        } else if self.current_era + self.config.unbonding_period > u32::MAX {
            Some(Error::Overflow)
        } else {
            None
        }
    }

    /// Whether `self` is `before` after the provider `id` was unregistered.
    pub open spec fn unregistered_from(&self, before: &Pallet<Id>, id: Id) -> bool {
        let idx = index_of(before.providers@, id);
        &&& 0 <= idx < before.providers@.len()
        &&& self.same_settings(before)
        &&& self.ledger == before.ledger
        &&& self.era_rewards_and_stakes == before.era_rewards_and_stakes
        &&& self.same_providers_but(before, idx)
        &&& self.providers@[idx].history == before.providers@[idx].history
        &&& self.providers@[idx].state == ProviderState::Unregistered(
            before.current_era,
            (before.current_era + before.config.unbonding_period) as u32,
        )
    }

    /// Unregisters the provider `id`. It takes no stake from now on and earns nothing
    /// past the running era; what is staked on it stays where it is until its stakers
    /// take it out. The register deposit goes back to the operator.
    pub fn unregister(&mut self, provider_id: Id) -> (r: Result<Outcome<Id>, Error>)
        requires
            old(self).wf(),
        ensures
            final(self).wf(),
            match r {
                Err(e) => old(self).unregister_refusal(provider_id) == Some(e) && *final(self)
                    == *old(self),
                Ok(out) => {
                    let idx = index_of(old(self).providers@, provider_id);
                    &&& old(self).unregister_refusal(provider_id) is None
                    &&& final(self).unregistered_from(old(self), provider_id)
                    &&& out.currency@ == seq![
                        CurrencyOp::Unreserve {
                            who: old(self).providers@[idx].operator,
                            amount: old(self).config.register_deposit,
                        },
                    ]
                    &&& out.events@ == Seq::<Event<Id>>::empty()
                    &&& mints_nothing(out.currency@)
                },
            },
            old(self).ledgers_balance() ==> final(self).ledgers_balance(),
            old(self).era_totals_balance() ==> final(self).era_totals_balance(),
    {
        let idx = match self.find(&provider_id) {
            Some(i) => i,
            None => {
                return Err(Error::NotOperatedProvider);
            },
        };
        match self.providers[idx].state {
            ProviderState::Registered => {},
            ProviderState::Unregistered(_, _) => {
                return Err(Error::NotOperatedProvider);
            },
        }
        let era = self.current_era;
        if self.config.unbonding_period > u32::MAX - era {
            return Err(Error::Overflow);
        }
        let operator = self.providers[idx].operator;
        self.providers[idx].state = ProviderState::Unregistered(
            era,
            era + self.config.unbonding_period,
        );
        let mut currency: Vec<CurrencyOp> = Vec::new();
        currency.push(
            CurrencyOp::Unreserve { who: operator, amount: self.config.register_deposit },
        );
        proof {
            let ps = old(self).providers@;
            let ps2 = self.providers@;
            assert forall|i: int, j: int| 0 <= i < j < ps2.len() implies ps2[i].id
                != ps2[j].id by {
                assert(ps2[i].id == ps[i].id && ps2[j].id == ps[j].id);
            }
            assert forall|i: int| 0 <= i < ps2.len() implies provider_wf(
                #[trigger] ps2[i],
                self.current_era,
                self.config.max_stakers_per_provider,
            ) by {
                assert(provider_wf(
                    ps[i],
                    self.current_era,
                    self.config.max_stakers_per_provider,
                ));
                assert(ps2[i].history == ps[i].history);
            }
            assert forall|j: int| 0 <= j < ps.len() && j != idx implies ps2[j].history
                == ps[j].history by {
                assert(ps2[j] == ps[j]);
            }
            if old(self).ledgers_balance() {
                assert forall|w: AccountId| #[trigger]
                    self.locked_of(w) == staked_by(ps2, era, w) + chunks_total(
                        self.unbonding_of(w),
                    ) by {
                    assert(old(self).locked_of(w) == staked_by(ps, era, w) + chunks_total(
                        old(self).unbonding_of(w),
                    ));
                    lemma_one_provider_differs(ps, ps2, idx as int, era, w);
                }
            }
            if old(self).era_totals_balance() {
                assert forall|e: EraIndex| e <= era implies (#[trigger] self.era_info(e)).staked
                    == total_staked(ps2, e) by {
                    assert(old(self).era_info(e).staked == total_staked(ps, e));
                    lemma_one_provider_differs(ps, ps2, idx as int, e, operator);
                }
            }
        }
        Ok(Outcome { currency, events: Vec::new() })
    }

    /// Why a withdrawal from an unregistered provider is refused, if it is.
    pub open spec fn withdraw_from_unregistered_refusal(
        &self,
        staker: AccountId,
        id: Id,
    ) -> Option<Error> {
        let points = self.points_of(id, self.current_era);
        let queue = self.unbonding_of(staker);
        if !self.knows(id) {
            Some(Error::NotOperatedProvider)
        } else {
            match self.providers@[index_of(self.providers@, id)].state {
                ProviderState::Registered => Some(Error::NotOperatedProvider),
                ProviderState::Unregistered(_, withdrawable_era) => {
                    if stake_of(points.stakers, staker) == 0 {
                        Some(Error::NotStaked)
                    } else if !has_era(queue, withdrawable_era) && queue.len()
                        >= self.config.max_unlocking_chunks {
                        Some(Error::TooManyUnlockingChunks)
                    } else {
                        None
                    }
                },
            }
        }
    }

    /// Takes the whole stake of `staker` out of the unregistered provider `id` and
    /// queues it to unlock in the era from which the provider's stakes can be
    /// withdrawn.
    pub fn withdraw_from_unregistered(&mut self, staker: AccountId, provider_id: Id) -> (r:
        Result<Outcome<Id>, Error>)
        requires
            old(self).wf(),
        ensures
            final(self).wf(),
            match r {
                Err(e) => old(self).withdraw_from_unregistered_refusal(staker, provider_id)
                    == Some(e) && *final(self) == *old(self),
                Ok(out) => {
                    let amount = stake_of(
                        old(self).points_of(provider_id, old(self).current_era).stakers,
                        staker,
                    ) as u128;
                    &&& old(self).withdraw_from_unregistered_refusal(staker, provider_id) is None
                    &&& old(self).providers@[index_of(old(self).providers@, provider_id)].state
                        matches ProviderState::Unregistered(_, withdrawable_era)
                        && final(self).unstaked_from(
                        old(self),
                        staker,
                        provider_id,
                        amount,
                        withdrawable_era,
                    )
                    &&& out.currency@ == seq![
                        CurrencyOp::SetLock { who: staker, amount: old(self).locked_of(staker) },
                    ]
                    &&& out.events@ == seq![Event::Unstake(staker, provider_id, amount)]
                    &&& mints_nothing(out.currency@)
                },
            },
            old(self).ledgers_balance() ==> final(self).ledgers_balance(),
            old(self).era_totals_balance() ==> final(self).era_totals_balance(),
    {
        let idx = match self.find(&provider_id) {
            Some(i) => i,
            None => {
                return Err(Error::NotOperatedProvider);
            },
        };
        let unlock_era = match self.providers[idx].state {
            ProviderState::Registered => {
                return Err(Error::NotOperatedProvider);
            },
            ProviderState::Unregistered(_, withdrawable_era) => withdrawable_era,
        };
        let points = self.providers[idx].history.at(self.current_era);
        let amount = points.staked_by(staker);
        if amount == 0 {
            return Err(Error::NotStaked);
        }
        let ledger = self.ledger(staker);
        if !ledger.unbonding_info.unlocks_in(unlock_era) && ledger.unbonding_info.count()
            >= self.config.max_unlocking_chunks as usize {
            return Err(Error::TooManyUnlockingChunks);
        }
        let op = self.unbond(idx, staker, amount, unlock_era);
        let mut currency: Vec<CurrencyOp> = Vec::new();
        currency.push(op);
        let mut events: Vec<Event<Id>> = Vec::new();
        events.push(Event::Unstake(staker, provider_id, amount));
        Ok(Outcome { currency, events })
    }
}

} // verus!
