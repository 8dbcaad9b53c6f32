//! Staking engine for a decentralized-API network: era clock, stake ledgers,
//! proportional reward claims, and the provider and project registry above it.
//!
//! The engine is a state machine that runs inside a blockchain runtime. It owns no
//! accounts: an operation is given what it needs to know of the currency (the free
//! balance of the caller), decides, and hands back the commands that the currency is to
//! carry out ([`primitives::CurrencyOp`]) together with the events that it reports. A
//! refused operation changes nothing and says why ([`primitives::Error`]).
//!
//! Providers and projects go by identifiers of the caller's choosing: the engine and the
//! registry take any type that can tell whether two identifiers are the same
//! ([`primitives::Identifier`]), such as [`primitives::MassbitId`].
//!
//! - [`dapi_staking`] is the engine itself: [`dapi_staking::Pallet`] holds the era
//!   clock, the ledgers, the totals of each era and the stake points of each provider.
//! - [`dapi`] is the registry of providers, consumer projects, known chains and
//!   fishermen; it passes registrations on to the engine.
//! - [`block_reward`] mints the reward of each block and hands it to the engine.
//! - [`fisherman`] and [`oracle`] are plain sets of privileged accounts.
//! - [`laws`] states what holds of the engine whatever is done with it.
//!
//! Every operation of the engine requires a well-formed state
//! ([`dapi_staking::Pallet::wf`]) and leaves one behind, and keeps the books balanced:
//! what an account has locked is what it has staked and what it has unbonding
//! ([`dapi_staking::Pallet::ledgers_balance`]), and what an era records as staked is
//! what stands staked on all providers ([`dapi_staking::Pallet::era_totals_balance`]).
//!
//! The proportions of a claim are computed by `sp_runtime::Perbill`, behind the two
//! functions of [`ratio`] whose contracts are taken on trust.

pub mod block_reward;
pub mod dapi;
pub mod dapi_staking;
pub mod fisherman;
pub mod laws;
pub mod oracle;
pub mod primitives;
pub mod ratio;
pub mod sorted;
pub mod sums;
