//! The block reward: a fixed amount minted once per block, when the block's timestamp
//! is set, and handed to the staking engine.

use vstd::prelude::*;
use crate::dapi_staking;
use crate::primitives::{capped, Balance, CurrencyOp, Identifier};

verus! {

/// The constants of the block reward.
#[derive(Clone, Copy, Debug, PartialEq, Eq, Structural)]
pub struct Config {
    /// What is minted for each block.
    pub reward_amount: Balance,
}

/// The block reward mechanism.
#[derive(Clone, Copy, Debug, PartialEq, Eq, Structural)]
pub struct Pallet {
    pub config: Config,
}

impl Pallet {
    /// Runs once per block, after its timestamp was set at `_moment`: mints the block
    /// reward and hands it to the staking engine, which adds it to the reward of the
    /// running era and has it credited to the pool account. A reward of zero is minted
    /// and dropped.
    pub fn on_timestamp_set<Id: Identifier>(
        &self,
        _moment: u64,
        sink: &mut dapi_staking::Pallet<Id>,
    ) -> (ops: Vec<CurrencyOp>)
        ensures
            final(sink).block_reward_accumulator == capped(
                old(sink).block_reward_accumulator + self.config.reward_amount,
            ),
            final(sink).pool_balance == capped(old(sink).pool_balance + self.config.reward_amount),
            final(sink).config == old(sink).config,
            final(sink).current_era == old(sink).current_era,
            final(sink).force_era == old(sink).force_era,
            final(sink).ledger == old(sink).ledger,
            final(sink).era_rewards_and_stakes == old(sink).era_rewards_and_stakes,
            final(sink).providers == old(sink).providers,
            ops@ == if self.config.reward_amount == 0 {
                seq![CurrencyOp::Issue { amount: 0 }]
            } else {
                seq![
                    CurrencyOp::Issue { amount: self.config.reward_amount },
                    CurrencyOp::Deposit {
                        who: old(sink).config.pallet_account,
                        amount: self.config.reward_amount,
                    },
                ]
            },
            old(sink).wf() ==> final(sink).wf(),
            old(sink).ledgers_balance() ==> final(sink).ledgers_balance(),
            old(sink).era_totals_balance() ==> final(sink).era_totals_balance(),
    {
        let amount = self.config.reward_amount;
        let mut ops: Vec<CurrencyOp> = Vec::new();
        ops.push(CurrencyOp::Issue { amount });
        let mut credited = sink.on_unbalanced(amount);
        ops.append(&mut credited);
        ops
    }
}

} // verus!
