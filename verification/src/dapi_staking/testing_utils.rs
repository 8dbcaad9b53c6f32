//! Read-only snapshots of the engine, for comparing its state before and after an
//! operation.

use vstd::prelude::*;
use crate::dapi_staking::pallet::{index_of, lemma_index_of, Pallet};
use crate::dapi_staking::points::{stake_of, EraStakingPoints};
use crate::dapi_staking::types::{AccountLedger, EraRewardAndStake, RegisteredProvider};
use crate::dapi_staking::unbonding::UnlockingChunk;
use crate::primitives::{AccountId, Balance, BlockNumber, EraIndex, Identifier};

verus! {

/// What the engine holds about one era, one provider and one staker.
#[derive(Debug, PartialEq, Eq)]
pub struct MemorySnapshot {
    /// The totals of the era.
    pub era_info: EraRewardAndStake,
    /// The stake points of the provider that hold in the era.
    pub provider_stake_info: EraStakingPoints,
    /// What the staker has staked on the provider in the era.
    pub staker_info: Balance,
    /// The provider's operator and state.
    pub provider_info: RegisteredProvider,
    /// The free balance of the staker's account, as the caller gave it.
    pub free_balance: Balance,
    /// The staker's ledger.
    pub ledger: AccountLedger,
}

impl MemorySnapshot {
    /// The snapshot for `era`, the provider `provider_id` and `account`, whose free
    /// balance is `free_balance`. There is none unless totals were written for the era
    /// and the provider is known.
    pub fn all<Id: Identifier>(
        pallet: &Pallet<Id>,
        era: EraIndex,
        provider_id: &Id,
        account: AccountId,
        free_balance: Balance,
    ) -> (r: Option<MemorySnapshot>)
        requires
            pallet.wf(),
        ensures
            r is Some == (pallet.era_rewards_and_stakes@.contains_key(era) && pallet.knows(
                *provider_id,
            )),
            r is Some ==> {
                let s = r->0;
                let i = index_of(pallet.providers@, *provider_id);
                &&& 0 <= i < pallet.providers@.len()
                &&& s.era_info == pallet.era_info(era)
                &&& s.provider_stake_info@ == pallet.points_of(*provider_id, era)
                &&& s.staker_info == stake_of(pallet.points_of(*provider_id, era).stakers, account)
                &&& s.provider_info.operator == pallet.providers@[i].operator
                &&& s.provider_info.state == pallet.providers@[i].state
                &&& s.free_balance == free_balance
                &&& s.ledger.locked == pallet.locked_of(account)
                &&& s.ledger.unbonding_info@ == pallet.unbonding_of(account)
            },
    {
        let era_info = match pallet.era_reward_and_stake(era) {
            Some(e) => e,
            None => {
                return None;
            },
        };
        let provider_info = match pallet.registered_provider(provider_id) {
            Some(p) => p,
            None => {
                return None;
            },
        };
        let provider_stake_info = pallet.staking_info(provider_id, era);
        proof {
            lemma_index_of(pallet.providers@, *provider_id);
        }
        let staker_info = provider_stake_info.staked_by(account);
        Some(
            MemorySnapshot {
                era_info,
                provider_stake_info,
                staker_info,
                provider_info,
                free_balance,
                ledger: pallet.ledger(account),
            },
        )
    }

    /// The snapshot for `era` and the provider `provider_id` alone: what concerns a
    /// staker is left empty.
    pub fn provider<Id: Identifier>(
        pallet: &Pallet<Id>,
        era: EraIndex,
        provider_id: &Id,
    ) -> (r: Option<MemorySnapshot>)
        requires
            pallet.wf(),
        ensures
            r is Some == (pallet.era_rewards_and_stakes@.contains_key(era) && pallet.knows(
                *provider_id,
            )),
            r is Some ==> {
                let s = r->0;
                let i = index_of(pallet.providers@, *provider_id);
                &&& 0 <= i < pallet.providers@.len()
                &&& s.era_info == pallet.era_info(era)
                &&& s.provider_stake_info@ == pallet.points_of(*provider_id, era)
                &&& s.staker_info == 0
                &&& s.provider_info.operator == pallet.providers@[i].operator
                &&& s.provider_info.state == pallet.providers@[i].state
                &&& s.free_balance == 0
                &&& s.ledger.locked == 0
                &&& s.ledger.unbonding_info@ == Seq::<UnlockingChunk>::empty()
            },
    {
        let era_info = match pallet.era_reward_and_stake(era) {
            Some(e) => e,
            None => {
                return None;
            },
        };
        let provider_info = match pallet.registered_provider(provider_id) {
            Some(p) => p,
            None => {
                return None;
            },
        };
        let provider_stake_info = pallet.staking_info(provider_id, era);
        proof {
            lemma_index_of(pallet.providers@, *provider_id);
        }
        Some(
            MemorySnapshot {
                era_info,
                provider_stake_info,
                staker_info: 0,
                provider_info,
                free_balance: 0,
                ledger: AccountLedger::default(),
            },
        )
    }
}

/// What the pool account holds, by the engine's own books.
pub fn free_balance_of_dapps_staking_account<Id: Identifier>(pallet: &Pallet<Id>) -> (r: Balance)
    ensures
        r == pallet.pool_balance,
{
    pallet.pool_balance
}

/// What one era brings in at `reward_per_block` a block.
pub fn get_total_reward_per_era(reward_per_block: Balance, blocks_per_era: BlockNumber) -> (r:
    Balance)
    requires
        reward_per_block * blocks_per_era <= u128::MAX,
    ensures
        r == reward_per_block * blocks_per_era,
{
    reward_per_block * (blocks_per_era as u128)
}

} // verus!
