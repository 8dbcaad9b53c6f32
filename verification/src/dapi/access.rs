//! The sets that only the chain's authority changes: the known chains and the
//! fishermen.

use vstd::prelude::*;
use crate::dapi::pallet::{chain_views, Event, EventView, Outcome, Pallet};
use crate::dapi_staking;
use crate::primitives::{AccountId, CurrencyOp, Error, Identifier, Origin};

verus! {

impl<Id: Identifier> Pallet<Id> {
    /// Equal in all but the known chains.
    pub open spec fn same_but_chains(&self, before: &Pallet<Id>) -> bool {
        &&& self.config == before.config
        &&& self.projects == before.projects
        &&& self.providers == before.providers
        &&& self.fishermen == before.fishermen
    }

    /// Equal in all but the fishermen.
    pub open spec fn same_but_fishermen(&self, before: &Pallet<Id>) -> bool {
        &&& self.config == before.config
        &&& self.projects == before.projects
        &&& self.providers == before.providers
        &&& self.chain_ids == before.chain_ids
    }

    /// Why a chain identifier is not added, if it is not.
    pub open spec fn add_chain_id_refusal(&self, origin: Origin, chain_id: Seq<u8>) -> Option<
        Error,
    > {
        if origin != Origin::Root {
            Some(Error::PermissionDenied)
        } else if chain_id.len() > self.config.chain_id_max_length {
            Some(Error::BadChainId)
        } else if chain_views(self.chain_ids@).contains(chain_id) {
            Some(Error::AlreadyExist)
        } else {
            None
        }
    }

    /// Adds `chain_id` to the known chains.
    pub fn add_chain_id(
        &mut self,
        origin: Origin,
        chain_id: Vec<u8>,
    ) -> (r: Result<Outcome<Id>, Error>)
        requires
            old(self).wf(),
        ensures
            final(self).wf(),
            match r {
                Err(e) => old(self).add_chain_id_refusal(origin, chain_id@) == Some(e)
                    && *final(self) == *old(self),
                Ok(out) => {
                    &&& old(self).add_chain_id_refusal(origin, chain_id@) is None
                    &&& final(self).same_but_chains(old(self))
                    &&& chain_views(final(self).chain_ids@) == chain_views(
                        old(self).chain_ids@,
                    ).push(chain_id@)
                    &&& out.currency@ == Seq::<CurrencyOp>::empty()
                    &&& out.staking_events@ == Seq::<dapi_staking::Event<Id>>::empty()
                    &&& out.events@.len() == 1
                    &&& out.events@[0]@ == (EventView::<Id>::ChainIdAdded { chain_id: chain_id@ })
                },
            },
    {
        match origin {
            Origin::Root => {},
            _ => {
                return Err(Error::PermissionDenied);
            },
        }
        if chain_id.len() > self.config.chain_id_max_length as usize {
            return Err(Error::BadChainId);
        }
        if self.find_chain(&chain_id).is_some() {
            return Err(Error::AlreadyExist);
        }
        let event = Event::ChainIdAdded { chain_id: chain_id.clone() };
        let ghost before = chain_views(self.chain_ids@);
        let ghost added = chain_id@;
        self.chain_ids.push(chain_id);
        proof {
            let after = chain_views(self.chain_ids@);
            assert(after =~= before.push(added));
            assert forall|i: int, j: int| 0 <= i < after.len() && 0 <= j < after.len() && i
                != j implies after[i] != after[j] by {
                if i < before.len() && j < before.len() {
                    assert(before[i] != before[j]);
                } else if i < before.len() {
                    assert(before.contains(before[i]));
                } else {
                    assert(before.contains(before[j]));
                }
            }
        }
        let mut events: Vec<Event<Id>> = Vec::new();
        events.push(event);
        Ok(Outcome { currency: Vec::new(), staking_events: Vec::new(), events })
    }

    /// Why a chain identifier is not removed, if it is not.
    pub open spec fn remove_chain_id_refusal(&self, origin: Origin, chain_id: Seq<u8>) -> Option<
        Error,
    > {
        if origin != Origin::Root {
            Some(Error::PermissionDenied)
        } else if chain_id.len() > self.config.chain_id_max_length {
            Some(Error::BadChainId)
        } else if !chain_views(self.chain_ids@).contains(chain_id) {
            Some(Error::NotExist)
        } else {
            None
        }
    }

    /// Removes `chain_id` from the known chains; the others keep their order.
    pub fn remove_chain_id(
        &mut self,
        origin: Origin,
        chain_id: Vec<u8>,
    ) -> (r: Result<Outcome<Id>, Error>)
        requires
            old(self).wf(),
        ensures
            final(self).wf(),
            match r {
                Err(e) => old(self).remove_chain_id_refusal(origin, chain_id@) == Some(e)
                    && *final(self) == *old(self),
                Ok(out) => {
                    &&& old(self).remove_chain_id_refusal(origin, chain_id@) is None
                    &&& final(self).same_but_chains(old(self))
                    &&& exists|i: int|
                        0 <= i < old(self).chain_ids@.len() && #[trigger] chain_views(
                            old(self).chain_ids@,
                        )[i] == chain_id@ && chain_views(final(self).chain_ids@) == chain_views(
                            old(self).chain_ids@,
                        ).remove(i)
                    &&& !chain_views(final(self).chain_ids@).contains(chain_id@)
                    &&& out.currency@ == Seq::<CurrencyOp>::empty()
                    &&& out.staking_events@ == Seq::<dapi_staking::Event<Id>>::empty()
                    &&& out.events@.len() == 1
                    &&& out.events@[0]@ == (EventView::<Id>::ChainIdRemoved { chain_id: chain_id@ })
                },
            },
    {
        match origin {
            Origin::Root => {},
            _ => {
                return Err(Error::PermissionDenied);
            },
        }
        if chain_id.len() > self.config.chain_id_max_length as usize {
            return Err(Error::BadChainId);
        }
        let idx = match self.find_chain(&chain_id) {
            Some(i) => i,
            None => {
                return Err(Error::NotExist);
            },
        };
        let ghost before = chain_views(self.chain_ids@);
        self.chain_ids.remove(idx);
        proof {
            let after = chain_views(self.chain_ids@);
            assert(after =~= before.remove(idx as int));
            assert(before[idx as int] == chain_id@);
            assert forall|i: int, j: int| 0 <= i < after.len() && 0 <= j < after.len() && i
                != j implies after[i] != after[j] by {
                let i0 = if i < idx { i } else { i + 1 };
                let j0 = if j < idx { j } else { j + 1 };
                assert(after[i] == before[i0] && after[j] == before[j0]);
            }
            assert forall|i: int| 0 <= i < after.len() implies after[i] != chain_id@ by {
                let i0 = if i < idx { i } else { i + 1 };
                assert(after[i] == before[i0]);
                assert(before[i0] != before[idx as int]);
            }
            assert forall|i: int| 0 <= i < self.chain_ids@.len() implies (
            #[trigger] self.chain_ids@[i])@.len() <= self.config.chain_id_max_length by {
                let i0 = if i < idx { i } else { i + 1 };
                assert(self.chain_ids@[i] == old(self).chain_ids@[i0]);
            }
        }
        let mut events: Vec<Event<Id>> = Vec::new();
        events.push(Event::ChainIdRemoved { chain_id });
        Ok(Outcome { currency: Vec::new(), staking_events: Vec::new(), events })
    }

    /// Why an account is not made a fisherman, if it is not.
    pub open spec fn add_fisherman_refusal(&self, origin: Origin, account_id: AccountId) -> Option<
        Error,
    > {
        if origin != Origin::Root {
            Some(Error::PermissionDenied)
        } else if self.fishermen@.contains(account_id) {
            Some(Error::AlreadyExist)
        } else {
            None
        }
    }

    /// Makes `account_id` a fisherman.
    pub fn add_fisherman(
        &mut self,
        origin: Origin,
        account_id: AccountId,
    ) -> (r: Result<Outcome<Id>, Error>)
        requires
            old(self).wf(),
        ensures
            final(self).wf(),
            match r {
                Err(e) => old(self).add_fisherman_refusal(origin, account_id) == Some(e)
                    && *final(self) == *old(self),
                Ok(out) => {
                    &&& old(self).add_fisherman_refusal(origin, account_id) is None
                    &&& final(self).same_but_fishermen(old(self))
                    &&& final(self).fishermen@ == old(self).fishermen@.insert(account_id)
                    &&& out.currency@ == Seq::<CurrencyOp>::empty()
                    &&& out.staking_events@ == Seq::<dapi_staking::Event<Id>>::empty()
                    &&& out.events@.len() == 1
                    &&& out.events@[0]@ == (EventView::<Id>::FishermanAdded { account_id })
                },
            },
    {
        match origin {
            Origin::Root => {},
            _ => {
                return Err(Error::PermissionDenied);
            },
        }
        if self.fishermen.contains(&account_id) {
            return Err(Error::AlreadyExist);
        }
        self.fishermen.insert(account_id);
        let mut events: Vec<Event<Id>> = Vec::new();
        events.push(Event::FishermanAdded { account_id });
        Ok(Outcome { currency: Vec::new(), staking_events: Vec::new(), events })
    }

    /// Why an account is not struck from the fishermen, if it is not.
    pub open spec fn remove_fisherman_refusal(
        &self,
        origin: Origin,
        account_id: AccountId,
    ) -> Option<Error> {
        if origin != Origin::Root {
            Some(Error::PermissionDenied)
        } else if !self.fishermen@.contains(account_id) {
            Some(Error::NotExist)
        } else {
            None
        }
    }

    /// Strikes `account_id` from the fishermen.
    pub fn remove_fisherman(
        &mut self,
        origin: Origin,
        account_id: AccountId,
    ) -> (r: Result<Outcome<Id>, Error>)
        requires
            old(self).wf(),
        ensures
            final(self).wf(),
            match r {
                Err(e) => old(self).remove_fisherman_refusal(origin, account_id) == Some(e)
                    && *final(self) == *old(self),
                Ok(out) => {
                    &&& old(self).remove_fisherman_refusal(origin, account_id) is None
                    &&& final(self).same_but_fishermen(old(self))
                    &&& final(self).fishermen@ == old(self).fishermen@.remove(account_id)
                    &&& out.currency@ == Seq::<CurrencyOp>::empty()
                    &&& out.staking_events@ == Seq::<dapi_staking::Event<Id>>::empty()
                    &&& out.events@.len() == 1
                    &&& out.events@[0]@ == (EventView::<Id>::FishermanRemoved { account_id })
                },
            },
    {
        match origin {
            Origin::Root => {},
            _ => {
                return Err(Error::PermissionDenied);
            },
        }
        if !self.fishermen.contains(&account_id) {
            return Err(Error::NotExist);
        }
        self.fishermen.remove(&account_id);
        let mut events: Vec<Event<Id>> = Vec::new();
        events.push(Event::FishermanRemoved { account_id });
        Ok(Outcome { currency: Vec::new(), staking_events: Vec::new(), events })
    }
}

} // verus!
