//! The records that the staking engine keeps, and what it reports.

use vstd::prelude::*;
use crate::dapi_staking::history::StakeHistory;
use crate::dapi_staking::unbonding::{UnbondingInfo, UnlockingChunk};
use crate::primitives::{AccountId, Balance, BlockNumber, CurrencyOp, EraIndex, Identifier};

verus! {

/// The constants of the staking engine.
#[derive(Clone, Copy, Debug, PartialEq, Eq)]
pub struct Config {
    /// The number of blocks in an era.
    pub block_per_era: BlockNumber,
    /// How many eras back a reward can still be claimed.
    pub history_depth: u32,
    /// The number of eras between an unstake and the withdrawal of its funds.
    pub unbonding_period: u32,
    /// The account that holds the rewards until they are claimed.
    pub pallet_account: AccountId,
    /// What has to stay free on a staker's account.
    pub minimum_remaining_amount: Balance,
    /// The least stake that may be left on a provider by an unstake.
    pub minimum_staking_amount: Balance,
    /// What is reserved from an operator for the time its provider is registered.
    pub register_deposit: Balance,
    /// The least deposit with which a provider can be registered.
    pub min_provider_deposit: Balance,
    /// The operator's share of a provider's reward, in parts per billion.
    pub operator_reward_percentage: u32,
    /// The most stakers that one provider can have.
    pub max_stakers_per_provider: u32,
    /// The most unlocking chunks that one ledger can hold.
    pub max_unlocking_chunks: u32,
    /// The most era-stake values kept for one staker on one provider.
    pub max_era_stake_values: u32,
}

impl Config {
    /// An era holds at least one block.
    pub open spec fn wf(&self) -> bool {
        self.block_per_era > 0
    }
}

/// Whether the next block is to start a new era whatever its number.
#[derive(Clone, Copy, Debug, PartialEq, Eq, Structural)]
pub enum Forcing {
    /// Eras change by the block number alone.
    ForceNone,
    /// The next block starts a new era.
    ForceNew,
}

/// The forcing mode of an engine on which none was set.
#[allow(non_snake_case)]
pub fn ForceEraOnEmpty() -> (r: Forcing)
    ensures
        r == Forcing::ForceNone,
{
    Forcing::ForceNone
}

/// What an era brought in and what stood staked and locked during it.
#[derive(Clone, Copy, Debug, PartialEq, Eq, Structural)]
pub struct EraRewardAndStake {
    /// The reward pool of the era, known once the era has closed.
    pub rewards: Balance,
    /// The total staked on all providers.
    pub staked: Balance,
    /// The total locked on all ledgers, unbonding amounts included.
    pub locked: Balance,
}

impl EraRewardAndStake {
    /// The record of an era about which nothing was written.
    pub open spec fn zero() -> EraRewardAndStake {
        EraRewardAndStake { rewards: 0, staked: 0, locked: 0 }
    }
}

impl Default for EraRewardAndStake {
    fn default() -> (r: Self)
        ensures
            r == EraRewardAndStake::zero(),
    {
        EraRewardAndStake { rewards: 0, staked: 0, locked: 0 }
    }
}

/// What an account has locked for staking, and what of it is on its way out.
#[derive(Debug, PartialEq, Eq)]
pub struct AccountLedger {
    /// The locked total: what is staked and what is unbonding.
    pub locked: Balance,
    /// The amounts that were unstaked and wait for their unlock era.
    pub unbonding_info: UnbondingInfo,
}

impl AccountLedger {
    /// Nothing locked and nothing unbonding.
    pub open spec fn is_empty_spec(&self) -> bool {
        self.locked == 0 && self.unbonding_info@.len() == 0
    }

    /// Whether nothing is locked and nothing is unbonding.
    pub fn is_empty(&self) -> (r: bool)
        ensures
            r == self.is_empty_spec(),
    {
        self.locked == 0 && self.unbonding_info.is_empty()
    }
}

impl Default for AccountLedger {
    fn default() -> (r: Self)
        ensures
            r.locked == 0,
            r.unbonding_info@ == Seq::<UnlockingChunk>::empty(),
            r.unbonding_info.wf(),
    {
        AccountLedger { locked: 0, unbonding_info: UnbondingInfo::default() }
    }
}

impl Clone for AccountLedger {
    fn clone(&self) -> (r: Self)
        ensures
            r.locked == self.locked,
            r.unbonding_info@ == self.unbonding_info@,
    {
        AccountLedger { locked: self.locked, unbonding_info: self.unbonding_info.clone() }
    }
}

/// Where a provider stands in its life.
#[derive(Clone, Copy, Debug, PartialEq, Eq, Structural)]
pub enum ProviderState {
    /// It takes stake and earns rewards.
    Registered,
    /// It was unregistered in the first era; what is staked on it can be withdrawn
    /// from the second era on.
    Unregistered(EraIndex, EraIndex),
}

/// Who operates a provider and where it stands.
#[derive(Clone, Copy, Debug, PartialEq, Eq, Structural)]
pub struct RegisteredProvider {
    pub operator: AccountId,
    pub state: ProviderState,
}

/// A provider as the staking engine knows it.
#[derive(Debug, PartialEq, Eq)]
pub struct ProviderInfo<Id: Identifier> {
    pub id: Id,
    pub operator: AccountId,
    pub state: ProviderState,
    pub history: StakeHistory,
}

/// What the staking engine reports.
#[derive(Clone, Copy, Debug, PartialEq, Eq)]
pub enum Event<Id: Identifier> {
    /// An era began.
    NewEra(EraIndex),
    /// An account staked an amount on a provider.
    Stake(AccountId, Id, Balance),
    /// An account began to unbond an amount from a provider.
    Unstake(AccountId, Id, Balance),
    /// An account withdrew an unbonded amount.
    Withdrawn(AccountId, Balance),
    /// An account was paid an amount for a provider's era.
    Reward(AccountId, Id, EraIndex, Balance),
}

/// What an operation that succeeded asks of the currency, and what it reports.
#[derive(Debug, PartialEq, Eq)]
pub struct Outcome<Id: Identifier> {
    /// The commands for the currency, in the order in which they are to be carried out.
    pub currency: Vec<CurrencyOp>,
    /// The events, in the order in which they happened.
    pub events: Vec<Event<Id>>,
}

} // verus!
