//! The registry of providers and consumer projects, above the staking engine.

pub mod access;
pub mod pallet;
pub mod projects;
pub mod providers;
pub mod types;

pub use pallet::{
    Config, Event, EventView, GenesisConfig, Outcome, Pallet, ProjectEntry, ProviderEntry,
};
pub use types::{Deposit, DepositInfo, Project, Provider, ProviderType};
pub use crate::dapi_staking::ProviderState;
pub use crate::primitives::Error;
