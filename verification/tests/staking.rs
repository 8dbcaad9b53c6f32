use std::collections::HashMap;

use massbit_dapi::block_reward;
use massbit_dapi::dapi_staking as engine;
use massbit_dapi::dapi_staking::{
    free_balance_of_dapps_staking_account, get_total_reward_per_era, Config, EraRewardAndStake,
    ForceEraOnEmpty, Forcing, MemorySnapshot, ProviderState, UnlockingChunk,
};
use massbit_dapi::primitives::{
    AccountId, Balance, BlockNumber, CurrencyOp, EraIndex, Error, Identifier, MassbitId,
    STAKING_ID,
};

type Pallet = engine::Pallet<MassbitId>;
type Event = engine::Event<MassbitId>;
type Outcome = engine::Outcome<MassbitId>;

const EXISTENTIAL_DEPOSIT: Balance = 2;
const MAX_NUMBER_OF_STAKERS: u32 = 5;
const MINIMUM_STAKING_AMOUNT: Balance = 10;
const OPERATOR_REWARD_PERCENTAGE: u32 = 80;
const MINIMUM_REMAINING_AMOUNT: Balance = 1;
const MAX_UNLOCKING_CHUNKS: u32 = 4;
const UNBONDING_PERIOD: EraIndex = 3;
const MAX_ERA_STAKE_VALUES: u32 = 8;
const BLOCKS_PER_ERA: BlockNumber = 3;
const REGISTER_DEPOSIT: Balance = 10;
const BLOCK_REWARD: Balance = 1000;
const HISTORY_DEPTH: u32 = 30;
const POOL_ACCOUNT: AccountId = 999_999;

/// The accounts of the test chain: free and reserved balances and staking locks.
struct Bank {
    free: HashMap<AccountId, Balance>,
    reserved: HashMap<AccountId, Balance>,
    locks: HashMap<AccountId, Balance>,
    issuance: Balance,
}

impl Bank {
    fn new(balances: &[(AccountId, Balance)]) -> Bank {
        let mut free = HashMap::new();
        let mut issuance = 0;
        for (who, amount) in balances {
            free.insert(*who, *amount);
            issuance += *amount;
        }
        Bank { free, reserved: HashMap::new(), locks: HashMap::new(), issuance }
    }

    fn free_balance(&self, who: AccountId) -> Balance {
        self.free.get(&who).copied().unwrap_or(0)
    }

    fn reserved_balance(&self, who: AccountId) -> Balance {
        self.reserved.get(&who).copied().unwrap_or(0)
    }

    fn lock(&self, who: AccountId) -> Option<Balance> {
        self.locks.get(&who).copied()
    }

    fn total_issuance(&self) -> Balance {
        self.issuance
    }

    fn sum_of_accounts(&self) -> Balance {
        self.free.values().sum::<Balance>() + self.reserved.values().sum::<Balance>()
    }

    fn apply(&mut self, op: &CurrencyOp) {
        match *op {
            CurrencyOp::Issue { amount } => self.issuance += amount,
            CurrencyOp::Deposit { who, amount } => {
                *self.free.entry(who).or_insert(0) += amount;
            }
            CurrencyOp::Withdraw { who, amount } => {
                let free = self.free.entry(who).or_insert(0);
                assert!(*free >= amount, "withdraw of more than is free");
                *free -= amount;
            }
            CurrencyOp::Reserve { who, amount } => {
                let free = self.free.entry(who).or_insert(0);
                assert!(*free >= amount, "reserve of more than is free");
                *free -= amount;
                *self.reserved.entry(who).or_insert(0) += amount;
            }
            CurrencyOp::Unreserve { who, amount } => {
                let reserved = self.reserved.entry(who).or_insert(0);
                let moved = amount.min(*reserved);
                *reserved -= moved;
                *self.free.entry(who).or_insert(0) += moved;
            }
            CurrencyOp::SetLock { who, amount } => {
                self.locks.insert(who, amount);
            }
            CurrencyOp::RemoveLock { who } => {
                self.locks.remove(&who);
            }
        }
    }
}

/// The test chain: a block counter, the accounts, the engine and what it reported.
struct Chain {
    block: BlockNumber,
    bank: Bank,
    staking: Pallet,
    reward: block_reward::Pallet,
    events: Vec<Event>,
}

fn config() -> Config {
    Config {
        block_per_era: BLOCKS_PER_ERA,
        history_depth: HISTORY_DEPTH,
        unbonding_period: UNBONDING_PERIOD,
        pallet_account: POOL_ACCOUNT,
        minimum_remaining_amount: MINIMUM_REMAINING_AMOUNT,
        minimum_staking_amount: MINIMUM_STAKING_AMOUNT,
        register_deposit: REGISTER_DEPOSIT,
        min_provider_deposit: REGISTER_DEPOSIT,
        operator_reward_percentage: OPERATOR_REWARD_PERCENTAGE * 10_000_000,
        max_stakers_per_provider: MAX_NUMBER_OF_STAKERS,
        max_unlocking_chunks: MAX_UNLOCKING_CHUNKS,
        max_era_stake_values: MAX_ERA_STAKE_VALUES,
    }
}

impl Chain {
    fn build() -> Chain {
        Chain {
            block: 1,
            bank: Bank::new(&[
                (1, 9000),
                (2, 800),
                (3, 10000),
                (4, 4900),
                (5, 3800),
                (6, 10),
                (7, 1000),
                (8, 2000),
                (9, 10000),
                (10, 300),
                (11, 400),
                (20, 10),
                (540, EXISTENTIAL_DEPOSIT),
                (1337, 1_000_000_000_000),
            ]),
            staking: Pallet::new(config()),
            reward: block_reward::Pallet {
                config: block_reward::Config { reward_amount: BLOCK_REWARD },
            },
            events: Vec::new(),
        }
    }

    fn settle(&mut self, outcome: Outcome) {
        for op in &outcome.currency {
            self.bank.apply(op);
        }
        self.events.extend(outcome.events);
    }

    fn on_initialize(&mut self) {
        let events = self.staking.on_initialize(self.block);
        self.events.extend(events);
    }

    fn on_timestamp_set(&mut self) {
        let ops = self.reward.on_timestamp_set(0, &mut self.staking);
        for op in &ops {
            self.bank.apply(op);
        }
    }

    fn run_to_block(&mut self, n: BlockNumber) {
        while self.block < n {
            self.block += 1;
            self.on_timestamp_set();
            self.on_initialize();
        }
    }

    fn run_for_blocks(&mut self, n: BlockNumber) {
        self.run_to_block(self.block + n);
    }

    fn advance_to_era(&mut self, n: EraIndex) {
        while self.staking.current_era() < n {
            self.run_for_blocks(1);
        }
    }

    fn initialize_first_block(&mut self) {
        assert_eq!(self.block, 1);
        self.on_initialize();
        self.run_to_block(2);
    }

    fn last_event(&self) -> Event {
        *self.events.last().expect("an event")
    }

    fn register(&mut self, operator: AccountId, id: MassbitId, deposit: Balance) -> Result<(), Error> {
        let free = self.bank.free_balance(operator);
        let outcome = self.staking.register(operator, id, deposit, free)?;
        self.settle(outcome);
        Ok(())
    }

    fn unregister(&mut self, id: MassbitId) -> Result<(), Error> {
        let outcome = self.staking.unregister(id)?;
        self.settle(outcome);
        Ok(())
    }

    fn stake(&mut self, staker: AccountId, id: MassbitId, value: Balance) -> Result<(), Error> {
        let free = self.bank.free_balance(staker);
        let outcome = self.staking.stake(staker, id, value, free)?;
        self.settle(outcome);
        Ok(())
    }

    fn unstake(&mut self, staker: AccountId, id: MassbitId, value: Balance) -> Result<(), Error> {
        let outcome = self.staking.unstake(staker, id, value)?;
        self.settle(outcome);
        Ok(())
    }

    fn withdraw_unbonded(&mut self, staker: AccountId) -> Result<(), Error> {
        let outcome = self.staking.withdraw_unbonded(staker)?;
        self.settle(outcome);
        Ok(())
    }

    fn withdraw_from_unregistered(&mut self, staker: AccountId, id: MassbitId) -> Result<(), Error> {
        let outcome = self.staking.withdraw_from_unregistered(staker, id)?;
        self.settle(outcome);
        Ok(())
    }

    fn claim(&mut self, id: MassbitId, era: EraIndex) -> Result<(), Error> {
        let outcome = self.staking.claim(id, era)?;
        self.settle(outcome);
        Ok(())
    }

    fn snapshot(&self, era: EraIndex, id: &MassbitId, account: AccountId) -> MemorySnapshot {
        MemorySnapshot::all(&self.staking, era, id, account, self.bank.free_balance(account))
            .expect("totals of the era and a known provider")
    }

    fn provider_snapshot(&self, era: EraIndex, id: &MassbitId) -> MemorySnapshot {
        MemorySnapshot::provider(&self.staking, era, id)
            .expect("totals of the era and a known provider")
    }

    /// What can be told of the engine's state from outside, to see that a refused
    /// operation changed nothing.
    fn fingerprint(&self, ids: &[MassbitId], accounts: &[AccountId]) -> String {
        let mut out = format!(
            "{} {} {:?} {} {}",
            self.staking.current_era(),
            self.staking.block_reward_accumulator(),
            self.staking.force_era(),
            free_balance_of_dapps_staking_account(&self.staking),
            self.bank.sum_of_accounts(),
        );
        for era in 0..=self.staking.current_era() {
            out += &format!(" {:?}", self.staking.era_reward_and_stake(era));
            for id in ids {
                out += &format!(" {:?}", self.staking.pool_era_stake(id, era));
            }
        }
        for id in ids {
            out += &format!(" {:?}", self.staking.registered_provider(id));
        }
        for who in accounts {
            out += &format!(
                " {:?} {} {} {:?}",
                self.staking.ledger(*who),
                self.bank.free_balance(*who),
                self.bank.reserved_balance(*who),
                self.bank.lock(*who),
            );
        }
        out
    }
}

fn provider(bytes: &[u8; 36]) -> MassbitId {
    MassbitId(*bytes)
}

fn default_provider() -> MassbitId {
    MassbitId([1; 36])
}

/// Registers a provider and checks what the registration did.
fn assert_register_provider(chain: &mut Chain, provider_acc: AccountId, id: &MassbitId, deposit: Balance) {
    let init_reserved_balance = chain.bank.reserved_balance(provider_acc);
    assert!(chain.staking.registered_provider(id).is_none());

    assert_eq!(chain.register(provider_acc, *id, deposit), Ok(()));

    let provider_info = chain.staking.registered_provider(id).unwrap();
    assert_eq!(provider_info.state, ProviderState::Registered);
    assert_eq!(provider_info.operator, provider_acc);
    assert_eq!(provider_info, chain.staking.registered_provider(id).unwrap());

    let final_reserved_balance = chain.bank.reserved_balance(provider_acc);
    assert_eq!(final_reserved_balance, init_reserved_balance + REGISTER_DEPOSIT);
}

/// Unregisters a provider and compares the state before and after.
fn assert_unregister(chain: &mut Chain, operator: AccountId, id: &MassbitId) {
    let current_era = chain.staking.current_era();
    let init_state = chain.provider_snapshot(current_era, id);
    let init_reserved_balance = chain.bank.reserved_balance(operator);

    assert_eq!(init_state.provider_info.state, ProviderState::Registered);

    assert_eq!(chain.unregister(*id), Ok(()));

    let final_state = chain.provider_snapshot(current_era, id);
    let final_reserved_balance = chain.bank.reserved_balance(operator);
    // the register deposit goes back to the operator
    assert_eq!(final_reserved_balance + REGISTER_DEPOSIT, init_reserved_balance);

    assert_eq!(final_state.era_info.staked, init_state.era_info.staked);
    assert_eq!(final_state.provider_stake_info.total, init_state.provider_stake_info.total);
    assert_eq!(
        final_state.provider_stake_info.number_of_stakers(),
        init_state.provider_stake_info.number_of_stakers()
    );
    assert_eq!(
        final_state.provider_info.state,
        ProviderState::Unregistered(current_era, current_era + UNBONDING_PERIOD)
    );
    assert_eq!(final_state.provider_info.operator, operator);
}

/// Takes a staker's whole stake out of an unregistered provider and compares the state
/// before and after.
fn assert_withdraw_from_unregistered(chain: &mut Chain, staker: AccountId, id: &MassbitId) {
    let current_era = chain.staking.current_era();
    let init_state = chain.snapshot(current_era, id, staker);
    let unlock_era = match init_state.provider_info.state {
        ProviderState::Unregistered(unregistered_era, withdrawable_era) => {
            assert!(unregistered_era <= current_era);
            withdrawable_era
        }
        ProviderState::Registered => panic!("the provider should be unregistered"),
    };

    let staked_value = init_state.staker_info;
    assert!(staked_value > 0);

    assert_eq!(chain.withdraw_from_unregistered(staker, *id), Ok(()));
    assert_eq!(chain.last_event(), Event::Unstake(staker, *id, staked_value));

    let final_state = chain.snapshot(current_era, id, staker);
    assert_eq!(init_state.era_info.staked, final_state.era_info.staked + staked_value);
    // the stake is queued for unbonding, so it stays locked
    assert_eq!(init_state.era_info.locked, final_state.era_info.locked);
    assert_eq!(init_state.provider_info, final_state.provider_info);
    assert_eq!(init_state.ledger.locked, final_state.ledger.locked);
    let mut unbonding_info = init_state.ledger.unbonding_info.clone();
    unbonding_info.add(UnlockingChunk { amount: staked_value, unlock_era });
    assert_eq!(unbonding_info, final_state.ledger.unbonding_info);

    assert_eq!(final_state.staker_info, 0);
    assert_eq!(
        init_state.provider_stake_info.number_of_stakers() - 1,
        final_state.provider_stake_info.number_of_stakers()
    );
}

/// Stakes and compares the state before and after.
fn assert_stake(chain: &mut Chain, staker: AccountId, id: &MassbitId, value: Balance) {
    let current_era = chain.staking.current_era();
    let init_state = chain.snapshot(current_era, id, staker);

    let available_for_staking =
        init_state.free_balance - init_state.ledger.locked - MINIMUM_REMAINING_AMOUNT;
    let staking_value = available_for_staking.min(value);

    assert_eq!(chain.stake(staker, *id, value), Ok(()));
    assert_eq!(chain.last_event(), Event::Stake(staker, *id, staking_value));

    let final_state = chain.snapshot(current_era, id, staker);

    if init_state.staker_info == 0 {
        assert!(final_state.staker_info > 0);
        assert_eq!(
            final_state.provider_stake_info.number_of_stakers(),
            init_state.provider_stake_info.number_of_stakers() + 1
        );
    }

    assert_eq!(final_state.era_info.staked, init_state.era_info.staked + staking_value);
    assert_eq!(final_state.era_info.locked, init_state.era_info.locked + staking_value);
    assert_eq!(
        final_state.provider_stake_info.total,
        init_state.provider_stake_info.total + staking_value
    );
    assert_eq!(final_state.staker_info, init_state.staker_info + staking_value);
    assert_eq!(final_state.ledger.locked, init_state.ledger.locked + staking_value);
    assert_eq!(chain.bank.lock(staker), Some(final_state.ledger.locked));
}

/// Unstakes and compares the state before and after.
fn assert_unstake(chain: &mut Chain, staker: AccountId, id: &MassbitId, value: Balance) {
    let current_era = chain.staking.current_era();
    let init_state = chain.snapshot(current_era, id, staker);

    let remaining_staked = init_state.staker_info.saturating_sub(value);
    let expected_unbond_amount = if remaining_staked < MINIMUM_STAKING_AMOUNT {
        init_state.staker_info
    } else {
        value
    };
    let remaining_staked = init_state.staker_info - expected_unbond_amount;

    assert_eq!(chain.unstake(staker, *id, value), Ok(()));
    assert_eq!(chain.last_event(), Event::Unstake(staker, *id, expected_unbond_amount));

    let final_state = chain.snapshot(current_era, id, staker);
    let expected_unlock_era = current_era + UNBONDING_PERIOD;
    match init_state
        .ledger
        .unbonding_info
        .vec()
        .binary_search_by(|x| x.unlock_era.cmp(&expected_unlock_era))
    {
        Ok(_) => assert_eq!(
            init_state.ledger.unbonding_info.len(),
            final_state.ledger.unbonding_info.len()
        ),
        Err(_) => assert_eq!(
            init_state.ledger.unbonding_info.len() + 1,
            final_state.ledger.unbonding_info.len()
        ),
    }
    assert_eq!(
        init_state.ledger.unbonding_info.sum() + expected_unbond_amount,
        final_state.ledger.unbonding_info.sum()
    );

    let mut unbonding_info = init_state.ledger.unbonding_info.clone();
    unbonding_info.add(UnlockingChunk {
        amount: expected_unbond_amount,
        unlock_era: current_era + UNBONDING_PERIOD,
    });
    assert_eq!(unbonding_info, final_state.ledger.unbonding_info);

    assert_eq!(init_state.ledger.locked, final_state.ledger.locked);
    if final_state.ledger.is_empty() {
        assert_eq!(chain.bank.lock(staker), None);
    }

    assert_eq!(
        init_state.provider_stake_info.total - expected_unbond_amount,
        final_state.provider_stake_info.total
    );
    assert_eq!(init_state.staker_info - expected_unbond_amount, final_state.staker_info);

    let delta = if remaining_staked > 0 { 0 } else { 1 };
    assert_eq!(
        init_state.provider_stake_info.number_of_stakers() - delta,
        final_state.provider_stake_info.number_of_stakers()
    );

    assert_eq!(init_state.era_info.staked - expected_unbond_amount, final_state.era_info.staked);
    assert_eq!(init_state.era_info.locked, final_state.era_info.locked);
}

/// Withdraws what has unlocked and compares the state before and after.
fn assert_withdraw_unbonded(chain: &mut Chain, staker: AccountId) {
    let current_era = chain.staking.current_era();
    let init_era_info = chain.staking.era_reward_and_stake(current_era).unwrap();
    let init_ledger = chain.staking.ledger(staker);

    let (valid_info, remaining_info) = init_ledger.unbonding_info.clone().partition(current_era);
    let expected_unbond_amount = valid_info.sum();

    assert_eq!(chain.withdraw_unbonded(staker), Ok(()));
    assert_eq!(chain.last_event(), Event::Withdrawn(staker, expected_unbond_amount));

    let final_ledger = chain.staking.ledger(staker);
    assert_eq!(remaining_info, final_ledger.unbonding_info);
    if final_ledger.unbonding_info.is_empty() && final_ledger.locked == 0 {
        assert_eq!(chain.bank.lock(staker), None);
    } else {
        assert_eq!(chain.bank.lock(staker), Some(final_ledger.locked));
    }

    let final_rewards_and_stakes = chain.staking.era_reward_and_stake(current_era).unwrap();
    assert_eq!(final_rewards_and_stakes.staked, init_era_info.staked);
    assert_eq!(final_rewards_and_stakes.locked, init_era_info.locked - expected_unbond_amount);
    assert_eq!(final_ledger.locked, init_ledger.locked - expected_unbond_amount);
}

#[test]
fn on_initialize_when_dapp_staking_enabled_in_mid_of_an_era_is_ok() {
    let mut chain = Chain::build();
    // a block number in the middle of an era
    chain.block = 2;

    // no era has begun yet
    assert_eq!(0u32, chain.staking.current_era());

    // the block does not start an era by its number, but the first block seen does
    chain.on_initialize();
    assert_eq!(1u32, chain.staking.current_era());
}

#[test]
fn on_unbalanced_is_ok() {
    let mut chain = Chain::build();
    // at the beginning, both are zero
    assert_eq!(chain.staking.block_reward_accumulator(), Balance::default());
    assert_eq!(free_balance_of_dapps_staking_account(&chain.staking), 0);
    assert_eq!(chain.bank.free_balance(POOL_ACCOUNT), 0);

    // after the reward came in, the accumulator and the pool account hold it
    let ops = chain.staking.on_unbalanced(BLOCK_REWARD);
    chain.bank.apply(&CurrencyOp::Issue { amount: BLOCK_REWARD });
    for op in &ops {
        chain.bank.apply(op);
    }
    let block_reward = chain.staking.block_reward_accumulator();
    assert_eq!(BLOCK_REWARD, block_reward);

    assert_eq!(BLOCK_REWARD, free_balance_of_dapps_staking_account(&chain.staking));
    assert_eq!(BLOCK_REWARD, chain.bank.free_balance(POOL_ACCOUNT));

    // a new era empties the accumulator, and the pool account keeps what it has
    chain.on_initialize();
    assert_eq!(chain.staking.block_reward_accumulator(), Balance::default());
    assert_eq!(BLOCK_REWARD, free_balance_of_dapps_staking_account(&chain.staking));
    assert_eq!(BLOCK_REWARD, chain.bank.free_balance(POOL_ACCOUNT));
}

#[test]
fn on_initialize_is_ok() {
    let mut chain = Chain::build();
    // before the start, the era is zero
    assert_eq!(chain.staking.current_era(), 0);

    // the first block starts the first era
    chain.initialize_first_block();
    let current_era = chain.staking.current_era();
    assert_eq!(1, current_era);

    let previous_era = current_era;
    chain.advance_to_era(previous_era + 10);

    // every era that has closed holds the reward of its blocks
    let current_era = chain.staking.current_era();
    for era in 1..current_era {
        let reward_info = chain.staking.era_reward_and_stake(era).unwrap().rewards;
        assert_eq!(get_total_reward_per_era(BLOCK_REWARD, BLOCKS_PER_ERA), reward_info);
    }
    // the running era holds none yet
    let era_rewards = chain.staking.era_reward_and_stake(current_era).unwrap();
    assert_eq!(0, era_rewards.staked);
    assert_eq!(era_rewards.rewards, Balance::default());
}

#[test]
fn new_era_length_is_always_blocks_per_era() {
    let mut chain = Chain::build();
    chain.initialize_first_block();
    let blocks_per_era = BLOCKS_PER_ERA;

    // go to the beginning of an era
    let era = chain.staking.current_era();
    chain.advance_to_era(era + 1);

    let start_era = chain.staking.current_era();
    let starting_block_number = chain.block;

    // go to the next era
    chain.advance_to_era(start_era + 1);
    let ending_block_number = chain.block;

    assert_eq!(chain.staking.current_era(), start_era + 1);
    assert_eq!(ending_block_number - starting_block_number, blocks_per_era);
}

#[test]
fn new_era_is_ok() {
    let mut chain = Chain::build();
    // set the initial era
    let era = chain.staking.current_era();
    chain.advance_to_era(era + 10);
    let starting_era = chain.staking.current_era();

    // at the beginning of an era no reward has come in
    assert_eq!(chain.staking.block_reward_accumulator(), Balance::default());

    // the next block is the second of the era
    chain.run_for_blocks(1);
    let current_era = chain.staking.current_era();
    assert_eq!(starting_era, current_era);

    // the block reward has come in
    let block_reward = chain.staking.block_reward_accumulator();
    assert_eq!(BLOCK_REWARD, block_reward);

    let staker = 2;
    let provider_acc = 3;
    let staked_amount = 100;
    let deposit = 200;
    let provider = default_provider();
    assert_register_provider(&mut chain, provider_acc, &provider, deposit);
    assert_stake(&mut chain, staker, &provider, staked_amount);

    // the era advances, and the accumulator is emptied
    let era = chain.staking.current_era();
    chain.advance_to_era(era + 1);

    let current_era = chain.staking.current_era();
    assert_eq!(starting_era + 1, current_era);
    assert_eq!(chain.last_event(), Event::NewEra(starting_era + 1));

    let block_reward = chain.staking.block_reward_accumulator();
    assert_eq!(block_reward, Balance::default());

    let expected_era_reward = get_total_reward_per_era(BLOCK_REWARD, BLOCKS_PER_ERA);

    // the stake was carried over and the reward set
    let era_rewards = chain.staking.era_reward_and_stake(starting_era).unwrap();
    assert_eq!(staked_amount + deposit, era_rewards.staked + REGISTER_DEPOSIT);
    assert_eq!(expected_era_reward, era_rewards.rewards);
    let next = chain.staking.era_reward_and_stake(starting_era + 1).unwrap();
    assert_eq!(next, EraRewardAndStake { rewards: 0, staked: 290, locked: 290 });
}

#[test]
fn new_era_forcing() {
    let mut chain = Chain::build();
    chain.initialize_first_block();
    chain.advance_to_era(3);
    let starting_era = chain.staking.current_era();

    // the next block is not the first of an era, but the era is forced
    chain.staking.set_force_era(Forcing::ForceNew);
    chain.run_for_blocks(1);

    let current = chain.staking.current_era();
    assert_eq!(starting_era + 1, current);

    // the forcing is cleared
    assert_eq!(chain.staking.force_era(), Forcing::ForceNone);

    assert_eq!(chain.last_event(), Event::NewEra(starting_era + 1));
}

#[test]
fn general_staker_info_is_ok() {
    let mut chain = Chain::build();
    chain.initialize_first_block();

    let deposit = 200;

    let first_provider_id = provider(b"00000000-0000-0000-0000-000000000001");
    assert_register_provider(&mut chain, 10, &first_provider_id, deposit);

    let (staker_1, staker_2, staker_3) = (1, 2, 3);
    let amount = 100;

    let starting_era = 3;
    chain.advance_to_era(starting_era);
    assert_stake(&mut chain, staker_1, &first_provider_id, amount);
    assert_stake(&mut chain, staker_2, &first_provider_id, amount);

    let mid_era = 7;
    chain.advance_to_era(mid_era);

    let second_provider_id = provider(b"00000000-0000-0000-0000-000000000002");
    assert_register_provider(&mut chain, 11, &second_provider_id, deposit);

    assert_unstake(&mut chain, staker_2, &first_provider_id, amount);
    assert_stake(&mut chain, staker_3, &first_provider_id, amount);
    assert_stake(&mut chain, staker_3, &second_provider_id, amount);

    let final_era = 12;
    chain.advance_to_era(final_era);

    // first interval
    for era in starting_era..mid_era {
        let provider_info = chain.staking.staking_info(&first_provider_id, era);
        assert_eq!(3, provider_info.number_of_stakers());
        assert_eq!(amount, provider_info.staked_by(staker_1));
        assert_eq!(amount, provider_info.staked_by(staker_2));

        assert!(chain.staking.pool_era_stake(&second_provider_id, era).is_none());
    }

    // second interval
    for era in mid_era..=final_era {
        let first_provider_info = chain.staking.staking_info(&first_provider_id, era);
        assert_eq!(3, first_provider_info.number_of_stakers());

        assert_eq!(amount, first_provider_info.staked_by(staker_1));
        assert_eq!(amount, first_provider_info.staked_by(staker_3));

        assert_eq!(chain.staking.staking_info(&second_provider_id, era).number_of_stakers(), 2);
    }

    assert!(chain.staking.pool_era_stake(&second_provider_id, starting_era - 1).is_none());
}

#[test]
fn register_is_ok() {
    let mut chain = Chain::build();
    chain.initialize_first_block();

    let operator = 1;
    let ok_provider = provider(b"00000000-0000-0000-0000-000000000001");
    let deposit = 200;

    assert_eq!(chain.bank.reserved_balance(operator), 0);
    assert_register_provider(&mut chain, operator, &ok_provider, deposit);
    assert_eq!(chain.last_event(), Event::Stake(operator, ok_provider, deposit - REGISTER_DEPOSIT));

    assert_eq!(REGISTER_DEPOSIT, chain.bank.reserved_balance(operator));
}

#[test]
fn register_same_provider_twice_fails() {
    let mut chain = Chain::build();
    chain.initialize_first_block();

    let operator1 = 1;
    let operator2 = 2;
    let id = provider(b"00000000-0000-0000-0000-000000000001");
    let deposit = 200;
    assert_register_provider(&mut chain, operator1, &id, deposit);

    assert_eq!(chain.last_event(), Event::Stake(operator1, id, deposit - REGISTER_DEPOSIT));

    // the same provider, registered by another operator
    let before = chain.fingerprint(&[id], &[operator1, operator2]);
    assert_eq!(chain.register(operator2, id, deposit), Err(Error::AlreadyExist));
    assert_eq!(before, chain.fingerprint(&[id], &[operator1, operator2]));
}

#[test]
fn unregister_after_register_is_ok() {
    let mut chain = Chain::build();
    chain.initialize_first_block();

    let operator = 1;
    let provider_id = provider(b"00000000-0000-0000-0000-000000000001");

    let deposit = 200;

    let starting_era = 3;
    chain.advance_to_era(starting_era);

    assert_register_provider(&mut chain, operator, &provider_id, deposit);
    assert_unregister(&mut chain, operator, &provider_id);

    let unbonding_era = UNBONDING_PERIOD;
    chain.advance_to_era(starting_era + unbonding_era);

    let current_era = chain.staking.current_era();
    assert!(chain.staking.pool_era_stake(&provider_id, current_era).is_none());

    // a provider cannot be unregistered twice
    let before = chain.fingerprint(&[provider_id], &[operator]);
    assert_eq!(chain.unregister(provider_id), Err(Error::NotOperatedProvider));
    assert_eq!(before, chain.fingerprint(&[provider_id], &[operator]));
}

#[test]
fn unregister_stake_and_unstake_is_not_ok() {
    let mut chain = Chain::build();
    chain.initialize_first_block();

    let operator = 1;
    let staker = 2;
    let provider_id = provider(b"00000000-0000-0000-0000-000000000001");

    // register the provider, stake on it, unstake a bit
    assert_register_provider(&mut chain, operator, &provider_id, 200);
    assert_stake(&mut chain, staker, &provider_id, 100);
    assert_unstake(&mut chain, staker, &provider_id, 10);

    // once the provider is unregistered, stake and unstake are refused
    assert_unregister(&mut chain, operator, &provider_id);

    let before = chain.fingerprint(&[provider_id], &[operator, staker]);
    assert_eq!(chain.stake(staker, provider_id, 100), Err(Error::NotOperatedProvider));
    assert_eq!(before, chain.fingerprint(&[provider_id], &[operator, staker]));
    assert_eq!(chain.unstake(staker, provider_id, 100), Err(Error::NotOperatedProvider));
    assert_eq!(before, chain.fingerprint(&[provider_id], &[operator, staker]));
}

#[test]
fn first_block_starts_the_first_era_with_empty_totals() {
    let mut chain = Chain::build();
    chain.on_initialize();
    assert_eq!(chain.staking.current_era(), 1);
    assert_eq!(chain.events, vec![Event::NewEra(1)]);
    let zero = EraRewardAndStake { rewards: 0, staked: 0, locked: 0 };
    assert_eq!(chain.staking.era_reward_and_stake(0), Some(zero));
    assert_eq!(chain.staking.era_reward_and_stake(1), Some(zero));
    assert_eq!(chain.staking.era_reward_and_stake(2), None);
}

#[test]
fn block_reward_reaches_the_pool_and_the_closing_era() {
    let mut chain = Chain::build();
    chain.on_initialize();
    let issuance = chain.bank.total_issuance();

    chain.block = 2;
    chain.on_timestamp_set();
    assert_eq!(chain.staking.block_reward_accumulator(), 1000);
    assert_eq!(chain.bank.free_balance(POOL_ACCOUNT), 1000);
    assert_eq!(free_balance_of_dapps_staking_account(&chain.staking), 1000);
    assert_eq!(chain.bank.total_issuance(), issuance + 1000);
    assert_eq!(chain.bank.sum_of_accounts(), issuance + 1000);

    chain.block = 4;
    chain.on_initialize();
    assert_eq!(chain.staking.current_era(), 2);
    assert_eq!(chain.staking.block_reward_accumulator(), 0);
    assert_eq!(
        chain.staking.era_reward_and_stake(1),
        Some(EraRewardAndStake { rewards: 1000, staked: 0, locked: 0 })
    );
    assert_eq!(
        chain.staking.era_reward_and_stake(2),
        Some(EraRewardAndStake { rewards: 0, staked: 0, locked: 0 })
    );
}

#[test]
fn eras_begin_on_the_first_block_of_genesis_and_of_each_era() {
    let mut chain = Chain::build();
    let mut begun = Vec::new();
    for block in 1..=10 {
        chain.block = block;
        let before = chain.staking.current_era();
        chain.on_initialize();
        let after = chain.staking.current_era();
        assert!(after == before || after == before + 1);
        if after != before {
            begun.push(block);
        }
    }
    assert_eq!(begun, vec![1, 4, 7, 10]);
    assert_eq!(chain.staking.current_era(), 4);
}

#[test]
fn single_provider_stake_and_claim() {
    let mut chain = Chain::build();
    chain.initialize_first_block();
    let id = provider(b"00000000-0000-0000-0000-000000000001");
    let operator = 10;
    let staker = 1;

    assert_register_provider(&mut chain, operator, &id, 200);
    assert_eq!(chain.staking.staking_info(&id, 1).total, 190);
    assert_stake(&mut chain, staker, &id, 100);
    // one block reward in each era, so that each era's reward is 1000
    while chain.staking.current_era() < 4 {
        chain.block += 1;
        if chain.block % BLOCKS_PER_ERA == 0 {
            chain.on_timestamp_set();
        }
        chain.on_initialize();
    }
    assert_eq!(chain.staking.current_era(), 4);
    assert_eq!(
        chain.staking.era_reward_and_stake(3),
        Some(EraRewardAndStake { rewards: 1000, staked: 290, locked: 290 })
    );

    let operator_before = chain.bank.free_balance(operator);
    let staker_before = chain.bank.free_balance(staker);
    let pool_before = chain.bank.free_balance(POOL_ACCOUNT);
    let issuance = chain.bank.total_issuance();
    let accounts = chain.bank.sum_of_accounts();
    let seen = chain.events.len();

    assert_eq!(chain.claim(id, 3), Ok(()));

    assert_eq!(
        chain.events[seen..].to_vec(),
        vec![
            Event::Reward(operator, id, 3, 800),
            Event::Reward(staker, id, 3, 69),
            Event::Reward(operator, id, 3, 131),
        ]
    );
    assert_eq!(chain.bank.free_balance(operator), operator_before + 800 + 131);
    assert_eq!(chain.bank.free_balance(staker), staker_before + 69);
    assert_eq!(chain.bank.free_balance(POOL_ACCOUNT), pool_before - 1000);
    assert_eq!(
        free_balance_of_dapps_staking_account(&chain.staking),
        chain.bank.free_balance(POOL_ACCOUNT)
    );
    // a claim mints nothing
    assert_eq!(chain.bank.total_issuance(), issuance);
    assert_eq!(chain.bank.sum_of_accounts(), accounts);
    assert_eq!(chain.staking.pool_era_stake(&id, 3).unwrap().claimed_rewards, 1000);

    let before = chain.fingerprint(&[id], &[operator, staker]);
    assert_eq!(chain.claim(id, 3), Err(Error::AlreadyClaimedInThisEra));
    assert_eq!(before, chain.fingerprint(&[id], &[operator, staker]));
}

#[test]
fn claim_commands_withdraw_what_they_deposit() {
    let mut chain = Chain::build();
    chain.initialize_first_block();
    let id = provider(b"00000000-0000-0000-0000-000000000001");
    assert_register_provider(&mut chain, 10, &id, 200);
    assert_stake(&mut chain, 1, &id, 100);
    assert_stake(&mut chain, 2, &id, 77);
    chain.advance_to_era(3);

    let outcome = chain.staking.claim(id, 1).unwrap();
    // 3000 came in during era 1, and the provider holds all the stake
    assert_eq!(outcome.currency[0], CurrencyOp::Withdraw { who: POOL_ACCOUNT, amount: 3000 });
    assert_eq!(outcome.currency[1], CurrencyOp::Deposit { who: 10, amount: 2400 });
    let mut deposited = 0;
    for op in &outcome.currency {
        match *op {
            CurrencyOp::Deposit { amount, .. } => deposited += amount,
            CurrencyOp::Withdraw { .. } => {}
            _ => panic!("a claim only withdraws and deposits"),
        }
    }
    assert_eq!(deposited, 3000);
    assert_eq!(
        outcome.currency.last(),
        Some(&CurrencyOp::Deposit { who: POOL_ACCOUNT, amount: 0 })
    );
    assert_eq!(
        outcome.events,
        vec![
            Event::Reward(10, id, 1, 2400),
            // 100 / 367, 77 / 367 and 190 / 367 of 600, each rounded to the nearest
            Event::Reward(1, id, 1, 163),
            Event::Reward(2, id, 1, 126),
            Event::Reward(10, id, 1, 311),
        ]
    );
}

#[test]
fn claim_is_refused_out_of_bounds_and_without_stake_or_reward() {
    let mut chain = Chain::build();
    chain.initialize_first_block();
    let id = provider(b"00000000-0000-0000-0000-000000000001");
    let unknown = provider(b"00000000-0000-0000-0000-000000000009");
    assert_register_provider(&mut chain, 10, &id, 200);
    chain.advance_to_era(3);

    // the running era and eras to come
    assert_eq!(chain.claim(id, 3), Err(Error::EraOutOfBounds));
    assert_eq!(chain.claim(id, 4), Err(Error::EraOutOfBounds));
    // a provider that nobody knows has no staker
    assert_eq!(chain.claim(unknown, 2), Err(Error::NotStaked));
    // before the provider was registered nobody had staked on it
    assert_eq!(chain.claim(id, 0), Err(Error::NotStaked));

    chain.advance_to_era(HISTORY_DEPTH + 5);
    assert_eq!(chain.claim(id, 4), Err(Error::EraOutOfBounds));
    assert_eq!(chain.claim(id, 5), Ok(()));
}

#[test]
fn claim_is_refused_when_the_pool_cannot_pay() {
    let mut staking = Pallet::new(config());
    staking.on_initialize(1);
    let id = default_provider();
    staking.register(10, id, 200, 300).unwrap();
    // rewards come in, an era closes, and then the books are set up anew without the pool
    staking.on_unbalanced(500);
    staking.on_initialize(4);
    assert_eq!(staking.era_reward_and_stake(1).unwrap().rewards, 500);
    assert_eq!(staking.claim(id, 1).map(|out| out.events.len()), Ok(2));
    // the pool is empty now, and era 2 closes with a reward that never reached it
    staking.block_reward_accumulator = 700;
    staking.on_initialize(7);
    assert_eq!(staking.era_reward_and_stake(2).unwrap().rewards, 700);
    assert_eq!(free_balance_of_dapps_staking_account(&staking), 0);
    assert_eq!(staking.claim(id, 2), Err(Error::UnknownEraReward));
}

#[test]
fn claim_of_an_era_without_totals_is_refused() {
    let mut staking = Pallet::new(config());
    let id = default_provider();
    // a stake in era zero, before any block was seen
    staking.register(10, id, 200, 300).unwrap();
    staking.era_rewards_and_stakes.clear();
    staking.current_era = 2;
    assert_eq!(staking.claim(id, 1), Err(Error::UnknownEraReward));
}

#[test]
fn unstake_under_threshold_drains() {
    let mut chain = Chain::build();
    chain.initialize_first_block();
    let id = default_provider();
    assert_register_provider(&mut chain, 10, &id, 200);
    assert_stake(&mut chain, 1, &id, 15);
    let era = chain.staking.current_era();

    assert_eq!(chain.unstake(1, id, 7), Ok(()));
    assert_eq!(chain.last_event(), Event::Unstake(1, id, 15));
    assert_eq!(chain.staking.staking_info(&id, era).staked_by(1), 0);
    assert_eq!(
        chain.staking.ledger(1).unbonding_info.vec(),
        vec![UnlockingChunk { amount: 15, unlock_era: era + 3 }]
    );
    assert_eq!(chain.staking.ledger(1).locked, 15);
}

#[test]
fn unstake_above_threshold_takes_what_was_asked() {
    let mut chain = Chain::build();
    chain.initialize_first_block();
    let id = default_provider();
    assert_register_provider(&mut chain, 10, &id, 200);
    assert_stake(&mut chain, 1, &id, 100);
    assert_unstake(&mut chain, 1, &id, 90);
    assert_eq!(chain.staking.staking_info(&id, 1).staked_by(1), 10);
    assert_unstake(&mut chain, 1, &id, 1);
    assert_eq!(chain.staking.staking_info(&id, 1).staked_by(1), 0);
}

#[test]
fn unstakes_of_one_era_merge_into_one_chunk() {
    let mut chain = Chain::build();
    chain.initialize_first_block();
    let id = default_provider();
    assert_register_provider(&mut chain, 10, &id, 200);
    assert_stake(&mut chain, 1, &id, 500);
    let era = chain.staking.current_era();

    assert_unstake(&mut chain, 1, &id, 100);
    assert_eq!(chain.staking.ledger(1).unbonding_info.len(), 1);
    assert_unstake(&mut chain, 1, &id, 50);
    assert_eq!(chain.staking.ledger(1).unbonding_info.len(), 1);
    assert_eq!(
        chain.staking.ledger(1).unbonding_info.vec(),
        vec![UnlockingChunk { amount: 150, unlock_era: era + UNBONDING_PERIOD }]
    );
}

#[test]
fn unlocking_chunks_are_limited_by_era_not_by_call() {
    let mut chain = Chain::build();
    chain.initialize_first_block();
    let id = default_provider();
    assert_register_provider(&mut chain, 10, &id, 200);
    assert_stake(&mut chain, 1, &id, 1000);

    for _ in 0..MAX_UNLOCKING_CHUNKS {
        assert_unstake(&mut chain, 1, &id, 20);
        assert_unstake(&mut chain, 1, &id, 20);
        chain.run_for_blocks(BLOCKS_PER_ERA);
    }
    // the first chunk has unlocked by now, but it still takes its place
    assert_eq!(chain.staking.ledger(1).unbonding_info.len(), MAX_UNLOCKING_CHUNKS);
    let before = chain.fingerprint(&[id], &[1]);
    assert_eq!(chain.unstake(1, id, 20), Err(Error::TooManyUnlockingChunks));
    assert_eq!(before, chain.fingerprint(&[id], &[1]));

    assert_withdraw_unbonded(&mut chain, 1);
    assert_unstake(&mut chain, 1, &id, 20);
}

#[test]
fn unregistered_provider_pays_up_to_its_last_era() {
    let mut chain = Chain::build();
    chain.initialize_first_block();
    let id = default_provider();
    assert_register_provider(&mut chain, 10, &id, 200);
    assert_stake(&mut chain, 1, &id, 100);
    chain.advance_to_era(3);
    assert_unregister(&mut chain, 10, &id);
    chain.advance_to_era(6);

    assert_eq!(chain.claim(id, 1), Ok(()));
    assert_eq!(chain.claim(id, 2), Ok(()));
    assert_eq!(chain.claim(id, 3), Ok(()));
    assert_eq!(chain.claim(id, 4), Err(Error::NotOperatedProvider));
    assert_eq!(chain.claim(id, 5), Err(Error::NotOperatedProvider));
    assert_eq!(chain.stake(1, id, 10), Err(Error::NotOperatedProvider));
    assert_eq!(chain.unstake(1, id, 10), Err(Error::NotOperatedProvider));
}

#[test]
fn stakers_leave_an_unregistered_provider() {
    let mut chain = Chain::build();
    chain.initialize_first_block();
    let id = default_provider();
    let other = provider(b"00000000-0000-0000-0000-000000000002");
    assert_register_provider(&mut chain, 10, &id, 200);
    assert_register_provider(&mut chain, 11, &other, 200);
    assert_stake(&mut chain, 3, &id, 150);
    assert_stake(&mut chain, 4, &id, 330);
    assert_stake(&mut chain, 3, &other, 150);
    chain.advance_to_era(5);

    // not while the provider is registered, and not from a provider that nobody knows
    assert_eq!(chain.withdraw_from_unregistered(3, id), Err(Error::NotOperatedProvider));
    assert_eq!(
        chain.withdraw_from_unregistered(3, provider(b"00000000-0000-0000-0000-000000000009")),
        Err(Error::NotOperatedProvider)
    );

    assert_unregister(&mut chain, 10, &id);
    assert_withdraw_from_unregistered(&mut chain, 3, &id);
    assert_withdraw_from_unregistered(&mut chain, 4, &id);
    assert_eq!(chain.withdraw_from_unregistered(3, id), Err(Error::NotStaked));
    assert_eq!(chain.staking.ledger(3).locked, 300);
    assert_eq!(
        chain.staking.ledger(3).unbonding_info.vec(),
        vec![UnlockingChunk { amount: 150, unlock_era: 8 }]
    );

    chain.advance_to_era(8);
    assert_withdraw_unbonded(&mut chain, 3);
    assert_withdraw_unbonded(&mut chain, 4);
    assert_eq!(chain.staking.ledger(3).locked, 150);
    assert_eq!(chain.bank.lock(4), None);
}

#[test]
fn stake_unstake_withdraw_returns_what_was_staked() {
    let mut chain = Chain::build();
    chain.initialize_first_block();
    let id = default_provider();
    assert_register_provider(&mut chain, 10, &id, 200);
    let staker = 2;
    let free_before = chain.bank.free_balance(staker);
    let x = 250;

    assert_stake(&mut chain, staker, &id, x);
    assert_eq!(chain.bank.lock(staker), Some(x));
    assert_unstake(&mut chain, staker, &id, x);
    assert_eq!(chain.bank.lock(staker), Some(x));
    assert_eq!(chain.withdraw_unbonded(staker), Err(Error::NothingToWithdraw));

    let era = chain.staking.current_era();
    chain.advance_to_era(era + UNBONDING_PERIOD - 1);
    assert_eq!(chain.withdraw_unbonded(staker), Err(Error::NothingToWithdraw));
    chain.advance_to_era(era + UNBONDING_PERIOD);
    assert_withdraw_unbonded(&mut chain, staker);

    assert_eq!(chain.last_event(), Event::Withdrawn(staker, x));
    assert!(chain.staking.ledger(staker).is_empty());
    assert_eq!(chain.bank.lock(staker), None);
    assert_eq!(chain.bank.free_balance(staker), free_before);
}

#[test]
fn stake_is_cut_down_to_what_the_account_can_spare() {
    let mut chain = Chain::build();
    chain.initialize_first_block();
    let id = default_provider();
    assert_register_provider(&mut chain, 10, &id, 200);

    // account 2 holds 800, of which 1 has to remain
    assert_eq!(chain.stake(2, id, 5000), Ok(()));
    assert_eq!(chain.last_event(), Event::Stake(2, id, 799));
    assert_eq!(chain.staking.ledger(2).locked, 799);

    // nothing is left to stake
    let before = chain.fingerprint(&[id], &[2]);
    assert_eq!(chain.stake(2, id, 1), Err(Error::StakingWithNoValue));
    assert_eq!(before, chain.fingerprint(&[id], &[2]));
    assert_eq!(chain.stake(1, id, 0), Err(Error::StakingWithNoValue));
}

#[test]
fn a_provider_takes_no_more_stakers_than_allowed() {
    let mut chain = Chain::build();
    chain.initialize_first_block();
    let id = default_provider();
    assert_register_provider(&mut chain, 10, &id, 200);
    for staker in [1, 2, 3, 4] {
        assert_stake(&mut chain, staker, &id, 50);
    }
    assert_eq!(
        chain.staking.staking_info(&id, 1).number_of_stakers(),
        MAX_NUMBER_OF_STAKERS as usize
    );
    assert_eq!(chain.stake(5, id, 50), Err(Error::MaxStakersExceeded));
    // one who has a stake already can add to it
    assert_stake(&mut chain, 3, &id, 50);
    // and once one has left, another can come
    assert_unstake(&mut chain, 4, &id, 50);
    assert_stake(&mut chain, 5, &id, 50);
}

#[test]
fn stake_that_overflows_the_total_is_refused() {
    let mut staking = Pallet::new(config());
    staking.on_initialize(1);
    let id = default_provider();
    staking.register(10, id, 200, 300).unwrap();
    assert_eq!(staking.stake(1, id, Balance::MAX, Balance::MAX), Err(Error::Overflow));
    // the most that fits
    let fits = Balance::MAX - 190;
    let outcome = staking.stake(1, id, fits, Balance::MAX).unwrap();
    assert_eq!(outcome.events, vec![Event::Stake(1, id, fits)]);
    assert_eq!(staking.staking_info(&id, 1).total, Balance::MAX);
}

#[test]
fn unstake_is_refused_without_value_or_stake() {
    let mut chain = Chain::build();
    chain.initialize_first_block();
    let id = default_provider();
    assert_register_provider(&mut chain, 10, &id, 200);
    assert_stake(&mut chain, 1, &id, 100);
    assert_eq!(chain.unstake(1, id, 0), Err(Error::UnstakingWithNoValue));
    assert_eq!(chain.unstake(2, id, 10), Err(Error::NotStaked));
}

#[test]
fn unlock_era_that_does_not_fit_is_refused() {
    let mut staking = Pallet::new(config());
    staking.on_initialize(1);
    let id = default_provider();
    staking.register(10, id, 200, 300).unwrap();
    staking.current_era = EraIndex::MAX - 2;
    // the stake points are read from the latest era that has them
    assert_eq!(staking.staking_info(&id, EraIndex::MAX - 2).staked_by(10), 190);
    assert_eq!(staking.unstake(10, id, 50), Err(Error::Overflow));
    assert_eq!(staking.unregister(id), Err(Error::Overflow));
    staking.current_era = EraIndex::MAX - 3;
    let outcome = staking.unstake(10, id, 50).unwrap();
    assert_eq!(outcome.events, vec![Event::Unstake(10, id, 50)]);
    assert_eq!(
        staking.ledger(10).unbonding_info.vec(),
        vec![UnlockingChunk { amount: 50, unlock_era: EraIndex::MAX }]
    );
}

#[test]
fn register_is_refused_below_the_least_deposit_or_without_funds() {
    let mut chain = Chain::build();
    chain.initialize_first_block();
    let id = default_provider();
    chain.staking.config.min_provider_deposit = 50;
    assert_eq!(chain.register(1, id, 49), Err(Error::InsufficientValue));
    // account 540 holds 2, less than the register deposit
    assert_eq!(chain.register(540, id, 200), Err(Error::InsufficientBonding));
    // account 20 holds 10: once the deposit is reserved, nothing is left to stake
    assert_eq!(chain.register(20, id, 200), Err(Error::StakingWithNoValue));
    chain.staking.config.max_stakers_per_provider = 0;
    assert_eq!(chain.register(1, id, 200), Err(Error::MaxStakersExceeded));
    assert!(chain.staking.registered_provider(&id).is_none());
}

#[test]
fn ledger_and_lock_go_together() {
    let mut chain = Chain::build();
    chain.initialize_first_block();
    let id = default_provider();
    assert_register_provider(&mut chain, 10, &id, 200);

    let mut ledger = chain.staking.ledger(7);
    assert!(ledger.is_empty());
    ledger.locked = 40;
    let op = chain.staking.update_ledger(7, ledger);
    assert_eq!(op, CurrencyOp::SetLock { who: 7, amount: 40 });
    assert_eq!(chain.staking.ledger(7).locked, 40);

    let mut ledger = chain.staking.ledger(7);
    ledger.locked = 0;
    let op = chain.staking.update_ledger(7, ledger);
    assert_eq!(op, CurrencyOp::RemoveLock { who: 7 });
    assert!(chain.staking.ledger(7).is_empty());
    assert_eq!(&STAKING_ID, b"apistake");
}

#[test]
fn locked_is_staked_and_unbonding_and_era_totals_are_sums() {
    let mut chain = Chain::build();
    chain.initialize_first_block();
    let first = provider(b"00000000-0000-0000-0000-000000000001");
    let second = provider(b"00000000-0000-0000-0000-000000000002");
    let ids = [first, second];
    let accounts = [1, 2, 3, 10, 11];
    let check = |chain: &Chain| {
        let era = chain.staking.current_era();
        for who in accounts {
            let staked: Balance =
                ids.iter().map(|id| chain.staking.staking_info(id, era).staked_by(who)).sum();
            let ledger = chain.staking.ledger(who);
            assert_eq!(ledger.locked, staked + ledger.unbonding_info.sum());
            let chunks = ledger.unbonding_info.vec();
            assert!(chunks.windows(2).all(|w| w[0].unlock_era < w[1].unlock_era));
            assert!(chunks.len() <= MAX_UNLOCKING_CHUNKS as usize);
        }
        for e in 0..=era {
            let mut total = 0;
            for id in &ids {
                let points = chain.staking.staking_info(id, e);
                let sum: Balance = points.stakers.iter().map(|s| s.amount).sum();
                assert_eq!(points.total, sum);
                assert!(points.stakers.len() <= MAX_NUMBER_OF_STAKERS as usize);
                total += points.total;
            }
            assert_eq!(chain.staking.era_reward_and_stake(e).unwrap().staked, total);
        }
    };
    check(&chain);
    assert_register_provider(&mut chain, 10, &first, 200);
    check(&chain);
    assert_stake(&mut chain, 1, &first, 300);
    check(&chain);
    chain.advance_to_era(3);
    check(&chain);
    assert_register_provider(&mut chain, 11, &second, 100);
    assert_stake(&mut chain, 1, &second, 40);
    assert_stake(&mut chain, 2, &first, 700);
    check(&chain);
    assert_unstake(&mut chain, 1, &first, 120);
    check(&chain);
    chain.advance_to_era(4);
    assert_unstake(&mut chain, 1, &first, 120);
    assert_eq!(chain.claim(first, 2), Ok(()));
    check(&chain);
    assert_unregister(&mut chain, 11, &second);
    check(&chain);
    assert_withdraw_from_unregistered(&mut chain, 1, &second);
    check(&chain);
    chain.advance_to_era(7);
    assert_withdraw_unbonded(&mut chain, 1);
    check(&chain);
    assert_eq!(chain.claim(second, 4), Ok(()));
    check(&chain);
}

#[test]
fn a_new_engine_forces_no_era_and_holds_nothing() {
    let staking = Pallet::new(config());
    assert_eq!(ForceEraOnEmpty(), Forcing::ForceNone);
    assert_eq!(staking.force_era(), ForceEraOnEmpty());
    assert_eq!(staking.current_era(), 0);
    assert_eq!(staking.account_id(), POOL_ACCOUNT);
    assert_eq!(free_balance_of_dapps_staking_account(&staking), 0);
    assert!(staking.ledger(1).is_empty());
    assert_eq!(staking.era_reward_and_stake(0), None);
    assert!(staking.staking_info(&default_provider(), 0).stakers.is_empty());
    assert!(staking.find(&default_provider()).is_none());
}

#[test]
fn snapshot_needs_totals_of_the_era_and_a_known_provider() {
    let mut chain = Chain::build();
    let id = default_provider();
    let other = provider(b"00000000-0000-0000-0000-000000000002");
    assert!(MemorySnapshot::provider(&chain.staking, 0, &id).is_none());
    chain.initialize_first_block();
    assert!(MemorySnapshot::provider(&chain.staking, 1, &id).is_none());
    assert_register_provider(&mut chain, 10, &id, 200);
    assert_stake(&mut chain, 1, &id, 40);
    assert!(MemorySnapshot::provider(&chain.staking, 2, &id).is_none());
    assert!(MemorySnapshot::all(&chain.staking, 1, &other, 1, 0).is_none());

    let all = MemorySnapshot::all(&chain.staking, 1, &id, 1, 9000).unwrap();
    assert_eq!(all.era_info, EraRewardAndStake { rewards: 0, staked: 230, locked: 230 });
    assert_eq!(all.provider_stake_info.total, 230);
    assert_eq!(all.staker_info, 40);
    assert_eq!(all.provider_info.operator, 10);
    assert_eq!(all.free_balance, 9000);
    assert_eq!(all.ledger.locked, 40);

    let only = MemorySnapshot::provider(&chain.staking, 1, &id).unwrap();
    assert_eq!(only.provider_stake_info, all.provider_stake_info);
    assert_eq!(only.staker_info, 0);
    assert_eq!(only.free_balance, 0);
    assert!(only.ledger.is_empty());

    // in era 0 the provider had no stake yet
    let early = MemorySnapshot::provider(&chain.staking, 0, &id).unwrap();
    assert_eq!(early.provider_stake_info.total, 0);
    assert_eq!(get_total_reward_per_era(1000, 3), 3000);
    assert_eq!(get_total_reward_per_era(BLOCK_REWARD, BLOCKS_PER_ERA), 3000);
}

#[test]
fn stake_points_are_read_from_the_latest_era_before() {
    let mut chain = Chain::build();
    chain.initialize_first_block();
    let id = default_provider();
    assert_register_provider(&mut chain, 10, &id, 200);
    chain.advance_to_era(4);
    assert_stake(&mut chain, 1, &id, 60);
    chain.advance_to_era(6);
    assert_eq!(chain.claim(id, 2), Ok(()));

    assert!(chain.staking.pool_era_stake(&id, 0).is_none());
    assert!(chain.staking.pool_era_stake(&id, 1).is_some());
    // the claim wrote the points of era 2, with what was paid out
    assert_eq!(chain.staking.pool_era_stake(&id, 2).unwrap().claimed_rewards, 3000);
    assert!(chain.staking.pool_era_stake(&id, 3).is_none());
    assert!(chain.staking.pool_era_stake(&id, 4).is_some());
    assert!(chain.staking.pool_era_stake(&id, 5).is_none());

    assert_eq!(chain.staking.staking_info(&id, 0).total, 0);
    for era in 1..4 {
        let points = chain.staking.staking_info(&id, era);
        assert_eq!(points.total, 190);
        assert_eq!(points.claimed_rewards, if era == 2 { 3000 } else { 0 });
    }
    for era in 4..8 {
        let points = chain.staking.staking_info(&id, era);
        assert_eq!(points.total, 250);
        assert_eq!(points.claimed_rewards, 0);
    }
}

/// Another kind of identifier: a short name.
#[derive(Clone, Copy, Debug, PartialEq, Eq)]
struct Name(&'static str);

impl Identifier for Name {
    fn same(&self, other: &Name) -> bool {
        self.0 == other.0
    }
}

#[test]
fn the_engine_takes_any_kind_of_identifier() {
    let mut staking = engine::Pallet::<Name>::new(config());
    staking.on_initialize(1);
    staking.register(10, Name("gateway"), 200, 300).unwrap();
    staking.register(11, Name("node"), 200, 400).unwrap();
    assert_eq!(staking.register(12, Name("node"), 200, 400), Err(Error::AlreadyExist));
    let outcome = staking.stake(1, Name("node"), 70, 9000).unwrap();
    assert_eq!(outcome.events, vec![engine::Event::Stake(1, Name("node"), 70)]);
    assert_eq!(staking.staking_info(&Name("gateway"), 1).total, 190);
    assert_eq!(staking.staking_info(&Name("node"), 1).total, 260);
    assert_eq!(staking.stake(1, Name("none"), 70, 9000), Err(Error::NotOperatedProvider));
}
