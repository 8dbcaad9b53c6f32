//! The staking engine: era clock, ledgers, stake points and claims.

pub mod claim;
pub mod history;
pub mod lifecycle;
pub mod pallet;
pub mod points;
pub mod stake;
pub mod testing_utils;
pub mod types;
pub mod unbonding;

pub use history::{EraPoints, StakeHistory};
pub use pallet::Pallet;
pub use points::{EraStakingPoints, StakerStake, StakingPoints};
pub use testing_utils::{
    free_balance_of_dapps_staking_account, get_total_reward_per_era, MemorySnapshot,
};
pub use types::{
    AccountLedger, Config, EraRewardAndStake, Event, ForceEraOnEmpty, Forcing, Outcome,
    ProviderInfo, ProviderState, RegisteredProvider,
};
pub use unbonding::{UnbondingInfo, UnlockingChunk};
pub use crate::primitives::Error;
