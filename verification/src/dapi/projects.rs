//! Consumer projects: registered with a deposit that pays for quota, topped up,
//! drawn down, and charged with the usage that fishermen report.

use vstd::prelude::*;
use crate::dapi::pallet::{
    position, project_ids, Event, EventView, Outcome, Pallet, ProjectEntry,
};
use crate::dapi::types::{
    deposits_total, ripe_deposits, unripe_deposits, Deposit, DepositInfo, Project,
};
use crate::dapi_staking;
use crate::primitives::{
    capped, AccountId, Balance, BlockNumber, CurrencyOp, Error, Identifier,
};

verus! {

/// The usage of a project after `usage` more was reported: the sum, but no more than
/// the quota.
pub open spec fn usage_after(before: u128, usage: u128, quota: u128) -> u128 {
    let sum = capped(before + usage);
    if sum <= quota {
        sum
    } else {
        quota
    }
}

impl<Id: Identifier> Pallet<Id> {
    /// Why the registration of a project is refused, if it is.
    pub open spec fn register_project_refusal(
        &self,
        id: Id,
        chain_id: Seq<u8>,
        deposit: Balance,
        free_balance: Balance,
    ) -> Option<Error> {
        if self.knows_project(id) {
            Some(Error::AlreadyExist)
        } else if !self.good_chain(chain_id) {
            Some(Error::BadChainId)
        } else if free_balance < deposit {
            Some(Error::InsufficientBonding)
        } else {
            None
        }
    }

    /// Registers the project `project_id` of `consumer` on the chain `chain_id`. The
    /// deposit is reserved and pays for the project's quota; it can be taken back from
    /// the block `now` on. `free_balance` is what the consumer's account holds free.
    pub fn register_project(
        &mut self,
        consumer: AccountId,
        project_id: Id,
        chain_id: Vec<u8>,
        deposit: Balance,
        free_balance: Balance,
        now: BlockNumber,
    ) -> (r: Result<Outcome<Id>, Error>)
        requires
            old(self).wf(),
        ensures
            final(self).wf(),
            match r {
                Err(e) => old(self).register_project_refusal(
                    project_id,
                    chain_id@,
                    deposit,
                    free_balance,
                ) == Some(e) && *final(self) == *old(self),
                Ok(out) => {
                    let n = old(self).projects@.len() as int;
                    let p = final(self).projects@[n].project;
                    &&& old(self).register_project_refusal(
                        project_id,
                        chain_id@,
                        deposit,
                        free_balance,
                    ) is None
                    &&& final(self).same_but_projects(old(self))
                    &&& final(self).projects@.len() == n + 1
                    &&& forall|j: int|
                        0 <= j < n ==> #[trigger] final(self).projects@[j] == old(self).projects@[j]
                    &&& final(self).projects@[n].id == project_id
                    &&& p.consumer == consumer
                    &&& p.chain_id@ == chain_id@
                    &&& p.quota == old(self).quota_for(deposit)
                    &&& p.usage == 0
                    &&& p.deposit_info@ == seq![
                        Deposit { amount: deposit, unreserved_block_number: now },
                    ]
                    &&& out.currency@ == seq![
                        CurrencyOp::Reserve { who: consumer, amount: deposit },
                    ]
                    &&& out.staking_events@ == Seq::<dapi_staking::Event<Id>>::empty()
                    &&& out.events@.len() == 1
                    &&& out.events@[0]@ == (EventView::ProjectRegistered {
                        project_id,
                        consumer,
                        chain_id: chain_id@,
                        quota: old(self).quota_for(deposit),
                    })
                },
            },
    {
        if self.find_project(&project_id).is_some() {
            return Err(Error::AlreadyExist);
        }
        if !self.is_good_chain(&chain_id) {
            return Err(Error::BadChainId);
        }
        if free_balance < deposit {
            return Err(Error::InsufficientBonding);
        }
        let quota = self.calculate_quota(deposit);
        let mut deposit_info = DepositInfo::default();
        deposit_info.add(Deposit { amount: deposit, unreserved_block_number: now });
        let event = Event::ProjectRegistered {
            project_id,
            consumer,
            chain_id: chain_id.clone(),
            quota,
        };
        let ghost before = project_ids(self.projects@);
        self.projects.push(
            ProjectEntry {
                id: project_id,
                project: Project { consumer, chain_id, quota, usage: 0, deposit_info },
            },
        );
        proof {
            crate::dapi::pallet::lemma_position(before, project_id);
            assert(project_ids(self.projects@) =~= before.push(project_id));
            assert(old(self).projects@.push(self.projects@[old(self).projects@.len() as int])
                =~= self.projects@);
        }
        let mut currency: Vec<CurrencyOp> = Vec::new();
        currency.push(CurrencyOp::Reserve { who: consumer, amount: deposit });
        let mut events: Vec<Event<Id>> = Vec::new();
        events.push(event);
        Ok(Outcome { currency, staking_events: Vec::new(), events })
    }

    /// Why a deposit to a project or a withdrawal from it is refused for want of the
    /// project or of the right to it, if it is.
    pub open spec fn owner_refusal(&self, consumer: AccountId, id: Id) -> Option<Error> {
        if !self.knows_project(id) {
            Some(Error::NotExist)
        } else if self.projects@[position(project_ids(self.projects@), id)].project.consumer
            != consumer {
            Some(Error::NotOwner)
        } else {
            None
        }
    }

    /// Why a deposit to a project is refused, if it is.
    pub open spec fn deposit_project_refusal(
        &self,
        consumer: AccountId,
        id: Id,
        deposit: Balance,
        free_balance: Balance,
    ) -> Option<Error> {
        if self.owner_refusal(consumer, id) is Some {
            self.owner_refusal(consumer, id)
        } else if free_balance < deposit {
            Some(Error::InsufficientBonding)
        } else {
            None
        }
    }

    /// Adds a deposit to the project `project_id`, which only its owner can do. The
    /// deposit is reserved and adds to the project's quota; it can be taken back from
    /// the block `now` on.
    pub fn deposit_project(
        &mut self,
        consumer: AccountId,
        project_id: Id,
        deposit: Balance,
        free_balance: Balance,
        now: BlockNumber,
    ) -> (r: Result<Outcome<Id>, Error>)
        requires
            old(self).wf(),
        ensures
            final(self).wf(),
            match r {
                Err(e) => old(self).deposit_project_refusal(
                    consumer,
                    project_id,
                    deposit,
                    free_balance,
                ) == Some(e) && *final(self) == *old(self),
                Ok(out) => {
                    let idx = position(project_ids(old(self).projects@), project_id);
                    let was = old(self).projects@[idx].project;
                    let p = final(self).projects@[idx].project;
                    let quota = capped(was.quota + old(self).quota_for(deposit));
                    &&& old(self).deposit_project_refusal(
                        consumer,
                        project_id,
                        deposit,
                        free_balance,
                    ) is None
                    &&& final(self).same_but_projects(old(self))
                    &&& final(self).same_projects_but(old(self), idx)
                    &&& p.quota == quota
                    &&& p.usage == was.usage
                    &&& p.deposit_info@ == was.deposit_info@.push(
                        Deposit { amount: deposit, unreserved_block_number: now },
                    )
                    &&& out.currency@ == seq![
                        CurrencyOp::Reserve { who: consumer, amount: deposit },
                    ]
                    &&& out.staking_events@ == Seq::<dapi_staking::Event<Id>>::empty()
                    &&& out.events@.len() == 1
                    &&& out.events@[0]@ == (EventView::ProjectDeposited {
                        project_id,
                        consumer,
                        quota,
                    })
                },
            },
    {
        let idx = match self.find_project(&project_id) {
            Some(i) => i,
            None => {
                return Err(Error::NotExist);
            },
        };
        if self.projects[idx].project.consumer != consumer {
            return Err(Error::NotOwner);
        }
        if free_balance < deposit {
            return Err(Error::InsufficientBonding);
        }
        let quota = self.projects[idx].project.quota.saturating_add(self.calculate_quota(deposit));
        self.projects[idx].project.quota = quota;
        self.projects[idx].project.deposit_info.add(
            Deposit { amount: deposit, unreserved_block_number: now },
        );
        proof {
            assert(project_ids(self.projects@) =~= project_ids(old(self).projects@));
        }
        let mut currency: Vec<CurrencyOp> = Vec::new();
        currency.push(CurrencyOp::Reserve { who: consumer, amount: deposit });
        let mut events: Vec<Event<Id>> = Vec::new();
        events.push(Event::ProjectDeposited { project_id, consumer, quota });
        Ok(Outcome { currency, staking_events: Vec::new(), events })
    }

    /// Gives back to the owner of the project `project_id` the deposits that can be
    /// unreserved at the block `now`; the others stay.
    pub fn withdraw_project_deposit(
        &mut self,
        consumer: AccountId,
        project_id: Id,
        now: BlockNumber,
    ) -> (r: Result<Outcome<Id>, Error>)
        requires
            old(self).wf(),
        ensures
            final(self).wf(),
            match r {
                Err(e) => old(self).owner_refusal(consumer, project_id) == Some(e) && *final(self)
                    == *old(self),
                Ok(out) => {
                    let idx = position(project_ids(old(self).projects@), project_id);
                    let was = old(self).projects@[idx].project;
                    let p = final(self).projects@[idx].project;
                    let amount = capped(
                        deposits_total(ripe_deposits(was.deposit_info@, now)) as int,
                    );
                    &&& old(self).owner_refusal(consumer, project_id) is None
                    &&& final(self).same_but_projects(old(self))
                    &&& final(self).same_projects_but(old(self), idx)
                    &&& p.quota == was.quota
                    &&& p.usage == was.usage
                    &&& p.deposit_info@ == unripe_deposits(was.deposit_info@, now)
                    &&& out.currency@ == seq![CurrencyOp::Unreserve { who: consumer, amount }]
                    &&& out.staking_events@ == Seq::<dapi_staking::Event<Id>>::empty()
                    &&& out.events@.len() == 1
                    &&& out.events@[0]@ == (EventView::<Id>::Withdrawn {
                        account: consumer,
                        amount,
                    })
                },
            },
    {
        let idx = match self.find_project(&project_id) {
            Some(i) => i,
            None => {
                return Err(Error::NotExist);
            },
        };
        if self.projects[idx].project.consumer != consumer {
            return Err(Error::NotOwner);
        }
        let (ripe, rest) = self.projects[idx].project.deposit_info.clone().partition(now);
        let amount = ripe.sum();
        self.projects[idx].project.deposit_info = rest;
        proof {
            assert(project_ids(self.projects@) =~= project_ids(old(self).projects@));
        }
        let mut currency: Vec<CurrencyOp> = Vec::new();
        currency.push(CurrencyOp::Unreserve { who: consumer, amount });
        let mut events: Vec<Event<Id>> = Vec::new();
        events.push(Event::Withdrawn { account: consumer, amount });
        Ok(Outcome { currency, staking_events: Vec::new(), events })
    }

    /// Why a report of usage is refused, if it is.
    pub open spec fn submit_project_usage_refusal(
        &self,
        caller: AccountId,
        id: Id,
    ) -> Option<Error> {
        if !self.fishermen@.contains(caller) {
            Some(Error::PermissionDenied)
        } else if !self.knows_project(id) {
            Some(Error::NotExist)
        } else {
            None
        }
    }

    /// Charges the project `project_id` with `usage` more, which only a fisherman can
    /// report. The usage never falls and never passes the quota.
    pub fn submit_project_usage(&mut self, caller: AccountId, project_id: Id, usage: u128) -> (r:
        Result<Outcome<Id>, Error>)
        requires
            old(self).wf(),
        ensures
            final(self).wf(),
            match r {
                Err(e) => old(self).submit_project_usage_refusal(caller, project_id) == Some(e)
                    && *final(self) == *old(self),
                Ok(out) => {
                    let idx = position(project_ids(old(self).projects@), project_id);
                    let was = old(self).projects@[idx].project;
                    let p = final(self).projects@[idx].project;
                    &&& old(self).submit_project_usage_refusal(caller, project_id) is None
                    &&& final(self).same_but_projects(old(self))
                    &&& final(self).same_projects_but(old(self), idx)
                    &&& p.quota == was.quota
                    &&& p.usage == usage_after(was.usage, usage, was.quota)
                    &&& was.usage <= p.usage <= p.quota
                    &&& p.deposit_info == was.deposit_info
                    &&& out.currency@ == Seq::<CurrencyOp>::empty()
                    &&& out.staking_events@ == Seq::<dapi_staking::Event<Id>>::empty()
                    &&& out.events@.len() == 1
                    &&& out.events@[0]@ == if p.usage == p.quota {
                        EventView::ProjectReachedQuota { project_id }
                    } else {
                        EventView::ProjectUsageReported { project_id, usage }
                    }
                },
            },
    {
        if !self.is_fisherman(caller) {
            return Err(Error::PermissionDenied);
        }
        let idx = match self.find_project(&project_id) {
            Some(i) => i,
            None => {
                return Err(Error::NotExist);
            },
        };
        let quota = self.projects[idx].project.quota;
        let sum = self.projects[idx].project.usage.saturating_add(usage);
        let new_usage = if sum <= quota {
            sum
        } else {
            quota
        };
        self.projects[idx].project.usage = new_usage;
        proof {
            assert(project_ids(self.projects@) =~= project_ids(old(self).projects@));
        }
        let mut events: Vec<Event<Id>> = Vec::new();
        if new_usage == quota {
            events.push(Event::ProjectReachedQuota { project_id });
        } else {
            events.push(Event::ProjectUsageReported { project_id, usage });
        }
        Ok(Outcome { currency: Vec::new(), staking_events: Vec::new(), events })
    }
}

} // verus!
