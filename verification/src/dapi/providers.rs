//! Providers in the registry: registered with a deposit that the staking engine takes
//! as the operator's stake, and unregistered by their operator or on a fisherman's
//! report.

use vstd::prelude::*;
use crate::dapi::pallet::{
    position, provider_ids, Event, EventView, Outcome, Pallet, ProviderEntry,
};
use crate::dapi::types::{Provider, ProviderType};
use crate::dapi_staking;
use crate::dapi_staking::pallet::index_of;
use crate::dapi_staking::ProviderState;
use crate::primitives::{AccountId, Balance, CurrencyOp, Error, Identifier, Origin};

verus! {

impl<Id: Identifier> Pallet<Id> {
    /// Why the registration of a provider is refused, if it is.
    pub open spec fn register_provider_refusal(
        &self,
        staking: &dapi_staking::Pallet<Id>,
        operator: AccountId,
        id: Id,
        chain_id: Seq<u8>,
        deposit: Balance,
        free_balance: Balance,
    ) -> Option<Error> {
        if self.knows_provider(id) {
            Some(Error::AlreadyExist)
        } else if !self.good_chain(chain_id) {
            Some(Error::BadChainId)
        } else {
            staking.register_refusal(operator, id, deposit, free_balance)
        }
    }

    /// Registers the provider `provider_id` of `operator` on the chain `chain_id`, and
    /// with the staking engine, which reserves the register deposit and stakes the rest
    /// of `deposit` for the operator.
    pub fn register_provider(
        &mut self,
        staking: &mut dapi_staking::Pallet<Id>,
        operator: AccountId,
        provider_id: Id,
        provider_type: ProviderType,
        chain_id: Vec<u8>,
        deposit: Balance,
        free_balance: Balance,
    ) -> (r: Result<Outcome<Id>, Error>)
        requires
            old(self).wf(),
            old(staking).wf(),
        ensures
            final(self).wf(),
            final(staking).wf(),
            match r {
                Err(e) => old(self).register_provider_refusal(
                    old(staking),
                    operator,
                    provider_id,
                    chain_id@,
                    deposit,
                    free_balance,
                ) == Some(e) && *final(self) == *old(self) && *final(staking) == *old(staking),
                Ok(out) => {
                    let n = old(self).providers@.len() as int;
                    let p = final(self).providers@[n].provider;
                    let amount = old(staking).first_stake(operator, deposit, free_balance);
                    &&& old(self).register_provider_refusal(
                        old(staking),
                        operator,
                        provider_id,
                        chain_id@,
                        deposit,
                        free_balance,
                    ) is None
                    &&& final(staking).registered_from(old(staking), operator, provider_id, amount)
                    &&& final(self).same_but_providers(old(self))
                    &&& final(self).providers@.len() == n + 1
                    &&& forall|j: int|
                        0 <= j < n ==> #[trigger] final(self).providers@[j]
                            == old(self).providers@[j]
                    &&& final(self).providers@[n].id == provider_id
                    &&& p.provider_type == provider_type
                    &&& p.operator == operator
                    &&& p.chain_id@ == chain_id@
                    &&& p.state == ProviderState::Registered
                    &&& out.currency@ == seq![
                        CurrencyOp::Reserve {
                            who: operator,
                            amount: old(staking).config.register_deposit,
                        },
                        CurrencyOp::SetLock {
                            who: operator,
                            amount: (old(staking).locked_of(operator) + amount) as u128,
                        },
                    ]
                    &&& out.staking_events@ == seq![
                        dapi_staking::Event::Stake(operator, provider_id, amount),
                    ]
                    &&& out.events@.len() == 1
                    &&& out.events@[0]@ == (EventView::ProviderRegistered {
                        provider_id,
                        provider_type,
                        operator,
                        chain_id: chain_id@,
                    })
                },
            },
            old(staking).ledgers_balance() ==> final(staking).ledgers_balance(),
            old(staking).era_totals_balance() && old(staking).era_info(
                old(staking).current_era,
            ).staked + old(staking).first_stake(operator, deposit, free_balance) <= u128::MAX
                ==> final(staking).era_totals_balance(),
    {
        if self.find_provider(&provider_id).is_some() {
            return Err(Error::AlreadyExist);
        }
        if !self.is_good_chain(&chain_id) {
            return Err(Error::BadChainId);
        }
        let staked = match staking.register(operator, provider_id, deposit, free_balance) {
            Ok(out) => out,
            Err(e) => {
                return Err(e);
            },
        };
        let event = Event::ProviderRegistered {
            provider_id,
            provider_type,
            operator,
            chain_id: chain_id.clone(),
        };
        let ghost before = provider_ids(self.providers@);
        self.providers.push(
            ProviderEntry {
                id: provider_id,
                provider: Provider {
                    provider_type,
                    operator,
                    chain_id,
                    state: ProviderState::Registered,
                },
            },
        );
        proof {
            crate::dapi::pallet::lemma_position(before, provider_id);
            assert(provider_ids(self.providers@) =~= before.push(provider_id));
        }
        let mut events: Vec<Event<Id>> = Vec::new();
        events.push(event);
        Ok(Outcome { currency: staked.currency, staking_events: staked.events, events })
    }

    /// Why the provider at `idx` cannot be unregistered, if it cannot.
    pub open spec fn retire_refusal(&self, staking: &dapi_staking::Pallet<Id>, idx: int) -> Option<
        Error,
    > {
        if self.providers@[idx].provider.state != ProviderState::Registered {
            Some(Error::NotOperatedProvider)
        } else {
            staking.unregister_refusal(self.providers@[idx].id)
        }
    }

    /// Whether `self` is `before` after the provider at `idx` was unregistered in the
    /// era `era`, with `period` eras to wait.
    pub open spec fn retired_from(
        &self,
        before: &Pallet<Id>,
        idx: int,
        era: u32,
        period: u32,
    ) -> bool {
        &&& self.same_but_providers(before)
        &&& self.providers@.len() == before.providers@.len()
        &&& forall|j: int|
            0 <= j < self.providers@.len() && j != idx ==> #[trigger] self.providers@[j]
                == before.providers@[j]
        &&& self.providers@[idx].id == before.providers@[idx].id
        &&& self.providers@[idx].provider.provider_type
            == before.providers@[idx].provider.provider_type
        &&& self.providers@[idx].provider.operator == before.providers@[idx].provider.operator
        &&& self.providers@[idx].provider.chain_id == before.providers@[idx].provider.chain_id
        &&& self.providers@[idx].provider.state == ProviderState::Unregistered(
            era,
            (era + period) as u32,
        )
    }

    /// Unregisters the provider at `idx`, here and with the staking engine.
    fn retire(&mut self, staking: &mut dapi_staking::Pallet<Id>, idx: usize) -> (r: Result<
        Vec<CurrencyOp>,
        Error,
    >)
        requires
            old(self).wf(),
            old(staking).wf(),
            idx < old(self).providers@.len(),
        ensures
            final(self).wf(),
            final(staking).wf(),
            match r {
                Err(e) => old(self).retire_refusal(old(staking), idx as int) == Some(e)
                    && *final(self) == *old(self) && *final(staking) == *old(staking),
                Ok(ops) => {
                    let id = old(self).providers@[idx as int].id;
                    &&& old(self).retire_refusal(old(staking), idx as int) is None
                    &&& final(staking).unregistered_from(old(staking), id)
                    &&& final(self).retired_from(
                        old(self),
                        idx as int,
                        old(staking).current_era,
                        old(staking).config.unbonding_period,
                    )
                    &&& ops@ == seq![
                        CurrencyOp::Unreserve {
                            who: old(staking).providers@[index_of(
                                old(staking).providers@,
                                id,
                            )].operator,
                            amount: old(staking).config.register_deposit,
                        },
                    ]
                },
            },
            old(staking).ledgers_balance() ==> final(staking).ledgers_balance(),
            old(staking).era_totals_balance() ==> final(staking).era_totals_balance(),
    {
        match self.providers[idx].provider.state {
            ProviderState::Registered => {},
            ProviderState::Unregistered(_, _) => {
                return Err(Error::NotOperatedProvider);
            },
        }
        let id = self.providers[idx].id;
        let era = staking.current_era();
        let period = staking.config.unbonding_period;
        let out = match staking.unregister(id) {
            Ok(out) => out,
            Err(e) => {
                return Err(e);
            },
        };
        self.providers[idx].provider.state = ProviderState::Unregistered(era, era + period);
        proof {
            assert(provider_ids(self.providers@) =~= provider_ids(old(self).providers@));
        }
        Ok(out.currency)
    }

    /// Why an unregistration is refused, if it is.
    pub open spec fn unregister_provider_refusal(
        &self,
        staking: &dapi_staking::Pallet<Id>,
        origin: Origin,
        id: Id,
    ) -> Option<Error> {
        let idx = position(provider_ids(self.providers@), id);
        if !self.knows_provider(id) {
            Some(Error::NotExist)
        } else {
            match origin {
                Origin::Unsigned => Some(Error::PermissionDenied),
                Origin::Signed(account) if account != self.providers@[idx].provider.operator => {
                    Some(Error::NotOwner)
                },
                _ => self.retire_refusal(staking, idx),
            }
        }
    }

    /// Unregisters the provider `provider_id`, which its operator can do, and the
    /// chain's authority. The staking engine gives back the register deposit.
    pub fn unregister_provider(
        &mut self,
        staking: &mut dapi_staking::Pallet<Id>,
        origin: Origin,
        provider_id: Id,
    ) -> (r: Result<Outcome<Id>, Error>)
        requires
            old(self).wf(),
            old(staking).wf(),
        ensures
            final(self).wf(),
            final(staking).wf(),
            match r {
                Err(e) => old(self).unregister_provider_refusal(old(staking), origin, provider_id)
                    == Some(e) && *final(self) == *old(self) && *final(staking) == *old(staking),
                Ok(out) => {
                    let idx = position(provider_ids(old(self).providers@), provider_id);
                    &&& old(self).unregister_provider_refusal(old(staking), origin, provider_id)
                        is None
                    &&& final(staking).unregistered_from(old(staking), provider_id)
                    &&& final(self).retired_from(
                        old(self),
                        idx,
                        old(staking).current_era,
                        old(staking).config.unbonding_period,
                    )
                    &&& out.currency@ == seq![
                        CurrencyOp::Unreserve {
                            who: old(staking).providers@[index_of(
                                old(staking).providers@,
                                provider_id,
                            )].operator,
                            amount: old(staking).config.register_deposit,
                        },
                    ]
                    &&& out.staking_events@ == Seq::<dapi_staking::Event<Id>>::empty()
                    &&& out.events@.len() == 1
                    &&& out.events@[0]@ == (EventView::ProviderUnregistered {
                        provider_id,
                        provider_type: old(self).providers@[idx].provider.provider_type,
                    })
                },
            },
            old(staking).ledgers_balance() ==> final(staking).ledgers_balance(),
            old(staking).era_totals_balance() ==> final(staking).era_totals_balance(),
    {
        let idx = match self.find_provider(&provider_id) {
            Some(i) => i,
            None => {
                return Err(Error::NotExist);
            },
        };
        match origin {
            Origin::Unsigned => {
                return Err(Error::PermissionDenied);
            },
            Origin::Signed(account) => {
                if account != self.providers[idx].provider.operator {
                    return Err(Error::NotOwner);
                }
            },
            Origin::Root => {},
        }
        let provider_type = self.providers[idx].provider.provider_type;
        let currency = match self.retire(staking, idx) {
            Ok(ops) => ops,
            Err(e) => {
                return Err(e);
            },
        };
        let mut events: Vec<Event<Id>> = Vec::new();
        events.push(Event::ProviderUnregistered { provider_id, provider_type });
        Ok(Outcome { currency, staking_events: Vec::new(), events })
    }

    /// Why a report on a provider is refused, if it is.
    pub open spec fn submit_provider_report_refusal(
        &self,
        staking: &dapi_staking::Pallet<Id>,
        caller: AccountId,
        id: Id,
    ) -> Option<Error> {
        if !self.fishermen@.contains(caller) {
            Some(Error::PermissionDenied)
        } else if !self.knows_provider(id) {
            Some(Error::NotExist)
        } else {
            self.retire_refusal(staking, position(provider_ids(self.providers@), id))
        }
    }

    /// Takes a fisherman's report on the provider `provider_id`: the provider is
    /// unregistered, and the figures are passed on.
    pub fn submit_provider_report(
        &mut self,
        staking: &mut dapi_staking::Pallet<Id>,
        caller: AccountId,
        provider_id: Id,
        requests: u64,
        success_rate: u32,
        average_latency: u32,
    ) -> (r: Result<Outcome<Id>, Error>)
        requires
            old(self).wf(),
            old(staking).wf(),
        ensures
            final(self).wf(),
            final(staking).wf(),
            match r {
                Err(e) => old(self).submit_provider_report_refusal(
                    old(staking),
                    caller,
                    provider_id,
                ) == Some(e) && *final(self) == *old(self) && *final(staking) == *old(staking),
                Ok(out) => {
                    let idx = position(provider_ids(old(self).providers@), provider_id);
                    &&& old(self).submit_provider_report_refusal(old(staking), caller, provider_id)
                        is None
                    &&& final(staking).unregistered_from(old(staking), provider_id)
                    &&& final(self).retired_from(
                        old(self),
                        idx,
                        old(staking).current_era,
                        old(staking).config.unbonding_period,
                    )
                    &&& out.currency@ == seq![
                        CurrencyOp::Unreserve {
                            who: old(staking).providers@[index_of(
                                old(staking).providers@,
                                provider_id,
                            )].operator,
                            amount: old(staking).config.register_deposit,
                        },
                    ]
                    &&& out.staking_events@ == Seq::<dapi_staking::Event<Id>>::empty()
                    &&& out.events@.len() == 1
                    &&& out.events@[0]@ == (EventView::ProviderPerformanceReported {
                        provider_id,
                        provider_type: old(self).providers@[idx].provider.provider_type,
                        requests,
                        success_rate,
                        average_latency,
                    })
                },
            },
            old(staking).ledgers_balance() ==> final(staking).ledgers_balance(),
            old(staking).era_totals_balance() ==> final(staking).era_totals_balance(),
    {
        if !self.is_fisherman(caller) {
            return Err(Error::PermissionDenied);
        }
        let idx = match self.find_provider(&provider_id) {
            Some(i) => i,
            None => {
                return Err(Error::NotExist);
            },
        };
        let provider_type = self.providers[idx].provider.provider_type;
        let currency = match self.retire(staking, idx) {
            Ok(ops) => ops,
            Err(e) => {
                return Err(e);
            },
        };
        let mut events: Vec<Event<Id>> = Vec::new();
        events.push(
            Event::ProviderPerformanceReported {
                provider_id,
                provider_type,
                requests,
                success_rate,
                average_latency,
            },
        );
        Ok(Outcome { currency, staking_events: Vec::new(), events })
    }
}

} // verus!
