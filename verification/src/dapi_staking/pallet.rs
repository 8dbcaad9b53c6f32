//! The state of the staking engine, what holds of it, and the era clock.

use std::collections::HashMap;
use vstd::prelude::*;
use crate::dapi_staking::history::{
    has_entry, history_wf, lemma_points_at_beyond, points_after_write, points_at,
};
use crate::dapi_staking::points::{stake_of, EraStakingPoints, StakingPoints};
use crate::dapi_staking::types::{
    AccountLedger, Config, EraRewardAndStake, Event, Forcing, ProviderInfo, ProviderState,
    RegisteredProvider,
};
use crate::dapi_staking::unbonding::{chunks_total, UnlockingChunk};
use crate::primitives::{
    capped, mints_nothing, AccountId, Balance, BlockNumber, CurrencyOp, EraIndex, Identifier,
};
use crate::sums::{lemma_sum_push, lemma_sum_update, sum};

verus! {

/// The index of the provider `id` among `ps`, or -1 if it is not among them.
pub open spec fn index_of<Id: Identifier>(ps: Seq<ProviderInfo<Id>>, id: Id) -> int
    decreases ps.len(),
{
    if ps.len() == 0 {
        -1
    } else if ps.last().id == id {
        ps.len() - 1
    } else {
        index_of(ps.drop_last(), id)
    }
}

/// No two providers share an identifier.
pub open spec fn distinct_ids<Id: Identifier>(ps: Seq<ProviderInfo<Id>>) -> bool {
    forall|i: int, j: int| 0 <= i < j < ps.len() ==> ps[i].id != ps[j].id
}

pub proof fn lemma_index_of<Id: Identifier>(ps: Seq<ProviderInfo<Id>>, id: Id)
    ensures
        -1 <= index_of(ps, id) < ps.len(),
        index_of(ps, id) >= 0 ==> ps[index_of(ps, id)].id == id,
        index_of(ps, id) < 0 ==> forall|j: int| 0 <= j < ps.len() ==> (#[trigger] ps[j]).id != id,
    decreases ps.len(),
{
    if ps.len() > 0 && ps.last().id != id {
        lemma_index_of(ps.drop_last(), id);
        if index_of(ps, id) < 0 {
            assert forall|j: int| 0 <= j < ps.len() implies (#[trigger] ps[j]).id != id by {
                if j < ps.len() - 1 {
                    assert(ps.drop_last()[j].id != id);
                }
            }
        }
    }
}

pub proof fn lemma_index_is<Id: Identifier>(ps: Seq<ProviderInfo<Id>>, id: Id, i: int)
    requires
        distinct_ids(ps),
        0 <= i < ps.len(),
        ps[i].id == id,
    ensures
        index_of(ps, id) == i,
{
    lemma_index_of(ps, id);
    let k = index_of(ps, id);
    if k < 0 {
        assert(ps[i].id != id);
    }
}

/// What stands staked on each provider in `era`.
pub open spec fn provider_totals<Id: Identifier>(ps: Seq<ProviderInfo<Id>>, era: EraIndex) -> Seq<
    nat,
> {
    Seq::new(ps.len(), |i: int| points_at(ps[i].history.entries@, era).total as nat)
}

/// What stands staked on all providers together in `era`.
pub open spec fn total_staked<Id: Identifier>(ps: Seq<ProviderInfo<Id>>, era: EraIndex) -> nat {
    sum(provider_totals(ps, era))
}

/// What `who` has staked on each provider in `era`.
pub open spec fn provider_stakes<Id: Identifier>(
    ps: Seq<ProviderInfo<Id>>,
    era: EraIndex,
    who: AccountId,
) -> Seq<nat> {
    Seq::new(ps.len(), |i: int| stake_of(points_at(ps[i].history.entries@, era).stakers, who))
}

/// What `who` has staked on all providers together in `era`.
pub open spec fn staked_by<Id: Identifier>(
    ps: Seq<ProviderInfo<Id>>,
    era: EraIndex,
    who: AccountId,
) -> nat {
    sum(provider_stakes(ps, era, who))
}

/// A provider's history is well formed, reaches no further than `current_era`, and
/// holds no more than `max_stakers` stakers in any era.
pub open spec fn provider_wf<Id: Identifier>(
    p: ProviderInfo<Id>,
    current_era: EraIndex,
    max_stakers: u32,
) -> bool {
    &&& history_wf(p.history.entries@)
    &&& forall|k: int|
        0 <= k < p.history.entries@.len() ==> {
            &&& (#[trigger] p.history.entries@[k]).era <= current_era
            &&& p.history.entries@[k].points.stakers@.len() <= max_stakers
        }
}

/// A stored ledger is not empty, and its queue is in order and within `max_chunks`.
pub open spec fn ledger_wf(l: AccountLedger, max_chunks: u32) -> bool {
    &&& l.unbonding_info.wf()
    &&& l.unbonding_info@.len() <= max_chunks
    &&& !l.is_empty_spec()
}

/// Where only the provider at `idx` differs between `ps` and `ps2`, the sums over all
/// providers differ by what differs at that provider.
pub proof fn lemma_one_provider_differs<Id: Identifier>(
    ps: Seq<ProviderInfo<Id>>,
    ps2: Seq<ProviderInfo<Id>>,
    idx: int,
    era: EraIndex,
    who: AccountId,
)
    requires
        0 <= idx < ps.len(),
        ps2.len() == ps.len(),
        forall|j: int| 0 <= j < ps.len() && j != idx ==> ps2[j].history == ps[j].history,
    ensures
        total_staked(ps2, era) + points_at(ps[idx].history.entries@, era).total == total_staked(
            ps,
            era,
        ) + points_at(ps2[idx].history.entries@, era).total,
        staked_by(ps2, era, who) + stake_of(points_at(ps[idx].history.entries@, era).stakers, who)
            == staked_by(ps, era, who) + stake_of(
            points_at(ps2[idx].history.entries@, era).stakers,
            who,
        ),
{
    let totals = provider_totals(ps, era);
    let totals_after = provider_totals(ps2, era);
    assert(totals_after =~= totals.update(idx, totals_after[idx]));
    lemma_sum_update(totals, idx, totals_after[idx]);
    let stakes = provider_stakes(ps, era, who);
    let stakes_after = provider_stakes(ps2, era, who);
    assert(stakes_after =~= stakes.update(idx, stakes_after[idx]));
    lemma_sum_update(stakes, idx, stakes_after[idx]);
}

/// A provider on which nothing was ever staked adds nothing to the sums.
pub proof fn lemma_provider_joins<Id: Identifier>(
    ps: Seq<ProviderInfo<Id>>,
    p: ProviderInfo<Id>,
    era: EraIndex,
    who: AccountId,
)
    requires
        p.history.entries@.len() == 0,
    ensures
        total_staked(ps.push(p), era) == total_staked(ps, era),
        staked_by(ps.push(p), era, who) == staked_by(ps, era, who),
{
    let ps2 = ps.push(p);
    assert(crate::dapi_staking::history::entry_eras(p.history.entries@) =~= Seq::<int>::empty());
    assert(points_at(p.history.entries@, era) == StakingPoints::empty());
    assert(provider_totals(ps2, era) =~= provider_totals(ps, era).push(0nat));
    lemma_sum_push(provider_totals(ps, era), 0nat);
    assert(crate::dapi_staking::points::stakes_held(Seq::empty(), who) =~= Seq::<nat>::empty());
    assert(provider_stakes(ps2, era, who) =~= provider_stakes(ps, era, who).push(0nat));
    lemma_sum_push(provider_stakes(ps, era, who), 0nat);
}

/// An era that no history reaches reads the stakes of the last era that they reach.
pub proof fn lemma_sums_beyond<Id: Identifier>(
    ps: Seq<ProviderInfo<Id>>,
    last: EraIndex,
    max_stakers: u32,
    era: EraIndex,
    who: AccountId,
)
    requires
        forall|i: int| 0 <= i < ps.len() ==> provider_wf(#[trigger] ps[i], last, max_stakers),
        last <= era,
    ensures
        total_staked(ps, era) == total_staked(ps, last),
        staked_by(ps, era, who) == staked_by(ps, last, who),
{
    assert forall|i: int| 0 <= i < ps.len() implies points_at(
        ps[i].history.entries@,
        era,
    ).unclaimed() == points_at(ps[i].history.entries@, last).unclaimed() by {
        assert(provider_wf(ps[i], last, max_stakers));
        lemma_points_at_beyond(ps[i].history.entries@, last, era);
    }
    assert forall|i: int| 0 <= i < ps.len() implies provider_totals(ps, era)[i] == provider_totals(
        ps,
        last,
    )[i] by {
        assert(points_at(ps[i].history.entries@, era).unclaimed().total == points_at(
            ps[i].history.entries@,
            last,
        ).unclaimed().total);
    }
    assert(provider_totals(ps, era) =~= provider_totals(ps, last));
    assert forall|i: int| 0 <= i < ps.len() implies provider_stakes(ps, era, who)[i]
        == provider_stakes(ps, last, who)[i] by {
        assert(points_at(ps[i].history.entries@, era).unclaimed().stakers == points_at(
            ps[i].history.entries@,
            last,
        ).unclaimed().stakers);
    }
    assert(provider_stakes(ps, era, who) =~= provider_stakes(ps, last, who));
}

/// The staking engine: the era clock, the reward that the running era has gathered, the
/// ledger of each staker, the totals of each era, and the providers with their stake
/// points.
pub struct Pallet<Id: Identifier> {
    pub config: Config,
    /// The running era; zero until the first block was seen.
    pub current_era: EraIndex,
    /// The block rewards that came in during the running era.
    pub block_reward_accumulator: Balance,
    pub force_era: Forcing,
    /// What the pool account holds of rewards that came in and were not paid out.
    pub pool_balance: Balance,
    /// The ledgers of the accounts that have something locked or unbonding.
    pub ledger: HashMap<AccountId, AccountLedger>,
    /// The totals of the eras that have begun.
    pub era_rewards_and_stakes: HashMap<EraIndex, EraRewardAndStake>,
    /// The providers, registered or unregistered, in the order in which they came.
    pub providers: Vec<ProviderInfo<Id>>,
}

impl<Id: Identifier> Pallet<Id> {
    /// What `who` has locked.
    pub open spec fn locked_of(&self, who: AccountId) -> Balance {
        if self.ledger@.contains_key(who) {
            self.ledger@[who].locked
        } else {
            0
        }
    }

    /// The unbonding queue of `who`.
    pub open spec fn unbonding_of(&self, who: AccountId) -> Seq<UnlockingChunk> {
        if self.ledger@.contains_key(who) {
            self.ledger@[who].unbonding_info@
        } else {
            Seq::empty()
        }
    }

    /// The totals of `era`, all zero where nothing was written.
    pub open spec fn era_info(&self, era: EraIndex) -> EraRewardAndStake {
        if self.era_rewards_and_stakes@.contains_key(era) {
            self.era_rewards_and_stakes@[era]
        } else {
            EraRewardAndStake::zero()
        }
    }

    /// Whether a provider `id` is known, registered or not.
    pub open spec fn knows(&self, id: Id) -> bool {
        index_of(self.providers@, id) >= 0
    }

    /// Whether a provider `id` is known and registered.
    pub open spec fn operates(&self, id: Id) -> bool {
        self.knows(id) && self.providers@[index_of(self.providers@, id)].state
            == ProviderState::Registered
    }

    /// The stake points of provider `id` that hold in `era`; none for an unknown provider.
    pub open spec fn points_of(&self, id: Id, era: EraIndex) -> StakingPoints {
        let i = index_of(self.providers@, id);
        if i < 0 {
            StakingPoints::empty()
        } else {
            points_at(self.providers@[i].history.entries@, era)
        }
    }

    /// Whether the stake points of provider `id` were written in `era` itself.
    pub open spec fn has_points(&self, id: Id, era: EraIndex) -> bool {
        let i = index_of(self.providers@, id);
        i >= 0 && has_entry(self.providers@[i].history.entries@, era)
    }

    /// Equal in all but ledgers, era totals and providers.
    pub open spec fn same_settings(&self, other: &Pallet<Id>) -> bool {
        &&& self.config == other.config
        &&& self.current_era == other.current_era
        &&& self.block_reward_accumulator == other.block_reward_accumulator
        &&& self.force_era == other.force_era
        &&& self.pool_balance == other.pool_balance
    }

    /// The ledgers of all accounts but `who` are those of `other`.
    pub open spec fn same_ledgers_but(&self, other: &Pallet<Id>, who: AccountId) -> bool {
        forall|w: AccountId|
            w != who ==> {
                &&& #[trigger] self.ledger@.contains_key(w) == other.ledger@.contains_key(w)
                &&& self.ledger@.contains_key(w) ==> self.ledger@[w] == other.ledger@[w]
            }
    }

    /// The providers are those of `other`, but for the state and the stake points of the
    /// one at `idx`.
    pub open spec fn same_providers_but(&self, other: &Pallet<Id>, idx: int) -> bool {
        &&& self.providers@.len() == other.providers@.len()
        &&& forall|j: int|
            0 <= j < self.providers@.len() && j != idx ==> #[trigger] self.providers@[j]
                == other.providers@[j]
        &&& 0 <= idx < self.providers@.len() ==> {
            &&& self.providers@[idx].id == other.providers@[idx].id
            &&& self.providers@[idx].operator == other.providers@[idx].operator
        }
    }

    /// The providers are those of `before`, but that `p` was written as the stake points
    /// of the provider at `idx` in `era`.
    pub open spec fn points_written(
        &self,
        before: &Pallet<Id>,
        idx: int,
        era: EraIndex,
        p: StakingPoints,
    ) -> bool {
        &&& 0 <= idx < before.providers@.len()
        &&& self.same_providers_but(before, idx)
        &&& self.providers@[idx].state == before.providers@[idx].state
        &&& forall|e: EraIndex| #[trigger]
            points_at(self.providers@[idx].history.entries@, e) == points_after_write(
                before.providers@[idx].history.entries@,
                era,
                p,
                e,
            )
        &&& forall|e: EraIndex| #[trigger]
            has_entry(self.providers@[idx].history.entries@, e) == (e == era || has_entry(
                before.providers@[idx].history.entries@,
                e,
            ))
    }

    /// The state is well formed: providers have distinct identifiers and well-formed
    /// histories that end at the running era, with no more stakers than allowed; stored
    /// ledgers are not empty, and their queues are in order and within the limit.
    pub open spec fn wf(&self) -> bool {
        &&& self.config.wf()
        &&& distinct_ids(self.providers@)
        &&& forall|i: int|
            0 <= i < self.providers@.len() ==> provider_wf(
                #[trigger] self.providers@[i],
                self.current_era,
                self.config.max_stakers_per_provider,
            )
        &&& forall|who: AccountId| #[trigger]
            self.ledger@.contains_key(who) ==> ledger_wf(
                self.ledger@[who],
                self.config.max_unlocking_chunks,
            )
    }

    /// For every account, what it has locked is what it has staked on all providers in
    /// the running era and what it has unbonding.
    pub open spec fn ledgers_balance(&self) -> bool {
        forall|who: AccountId| #[trigger]
            self.locked_of(who) == staked_by(self.providers@, self.current_era, who)
                + chunks_total(self.unbonding_of(who))
    }

    /// For every era that has begun, its staked total is what stands staked on all
    /// providers in it.
    pub open spec fn era_totals_balance(&self) -> bool {
        forall|era: EraIndex|
            era <= self.current_era ==> (#[trigger] self.era_info(era)).staked == total_staked(
                self.providers@,
                era,
            )
    }

    /// Whether the block `now` starts a new era: it is the first block of an era by its
    /// number, or a new era was forced, or no era has begun yet.
    pub open spec fn is_era_boundary(&self, now: BlockNumber) -> bool {
        ||| now % self.config.block_per_era == 1
        ||| self.force_era == Forcing::ForceNew
        ||| self.current_era == 0
    }

    /// What an era reads of the provider at `idx` is well formed and within the limit
    /// of stakers.
    pub proof fn lemma_points_within(&self, idx: int, era: EraIndex)
        requires
            self.wf(),
            0 <= idx < self.providers@.len(),
        ensures
            points_at(self.providers@[idx].history.entries@, era).wf(),
            points_at(self.providers@[idx].history.entries@, era).stakers.len()
                <= self.config.max_stakers_per_provider,
            index_of(self.providers@, self.providers@[idx].id) == idx,
    {
        let h = self.providers@[idx].history.entries@;
        assert(provider_wf(
            self.providers@[idx],
            self.current_era,
            self.config.max_stakers_per_provider,
        ));
        crate::dapi_staking::history::lemma_points_at_wf(h, era);
        let i = crate::dapi_staking::history::latest_at(h, era);
        if i >= 0 {
            assert(h[i].points.stakers@.len() <= self.config.max_stakers_per_provider);
        }
        lemma_index_is(self.providers@, self.providers@[idx].id, idx);
    }

    /// An engine in era zero that holds nothing.
    pub fn new(config: Config) -> (r: Self)
        requires
            config.wf(),
        ensures
            r.wf(),
            r.ledgers_balance(),
            r.era_totals_balance(),
            r.config == config,
            r.current_era == 0,
            r.block_reward_accumulator == 0,
            r.force_era == Forcing::ForceNone,
            r.pool_balance == 0,
            r.ledger@ == Map::<AccountId, AccountLedger>::empty(),
            r.era_rewards_and_stakes@ == Map::<EraIndex, EraRewardAndStake>::empty(),
            r.providers@ == Seq::<ProviderInfo<Id>>::empty(),
    {
        let r = Pallet {
            config,
            current_era: 0,
            block_reward_accumulator: 0,
            force_era: Forcing::ForceNone,
            pool_balance: 0,
            ledger: HashMap::new(),
            era_rewards_and_stakes: HashMap::new(),
            providers: Vec::new(),
        };
        proof {
            assert forall|who: AccountId| #[trigger]
                r.locked_of(who) == staked_by(r.providers@, r.current_era, who) + chunks_total(
                    r.unbonding_of(who),
                ) by {
                assert(provider_stakes(r.providers@, r.current_era, who) =~= Seq::<nat>::empty());
                assert(crate::dapi_staking::unbonding::chunk_amounts(r.unbonding_of(who))
                    =~= Seq::<nat>::empty());
            }
            assert forall|era: EraIndex| era <= r.current_era implies (#[trigger] r.era_info(
                era,
            )).staked == total_staked(r.providers@, era) by {
                assert(provider_totals(r.providers@, era) =~= Seq::<nat>::empty());
            }
        }
        r
    }

    /// The account that holds the rewards until they are claimed.
    pub fn account_id(&self) -> (r: AccountId)
        ensures
            r == self.config.pallet_account,
    {
        self.config.pallet_account
    }

    /// The running era.
    pub fn current_era(&self) -> (r: EraIndex)
        ensures
            r == self.current_era,
    {
        self.current_era
    }

    /// The block rewards that came in during the running era.
    pub fn block_reward_accumulator(&self) -> (r: Balance)
        ensures
            r == self.block_reward_accumulator,
    {
        self.block_reward_accumulator
    }

    /// Whether a new era is forced.
    pub fn force_era(&self) -> (r: Forcing)
        ensures
            r == self.force_era,
    {
        self.force_era
    }

    /// Forces the next block to start a new era, or takes that back.
    pub fn set_force_era(&mut self, mode: Forcing)
        ensures
            final(self).force_era == mode,
            final(self).config == old(self).config,
            final(self).current_era == old(self).current_era,
            final(self).block_reward_accumulator == old(self).block_reward_accumulator,
            final(self).pool_balance == old(self).pool_balance,
            final(self).ledger == old(self).ledger,
            final(self).era_rewards_and_stakes == old(self).era_rewards_and_stakes,
            final(self).providers == old(self).providers,
            old(self).wf() ==> final(self).wf(),
            old(self).ledgers_balance() ==> final(self).ledgers_balance(),
            old(self).era_totals_balance() ==> final(self).era_totals_balance(),
    {
        self.force_era = mode;
        proof {
            assert forall|era: EraIndex| self.era_info(era) == old(self).era_info(era) by {}
            assert forall|who: AccountId| self.locked_of(who) == old(self).locked_of(who) by {}
        }
    }

    /// The ledger of `staker`; an empty one for an account that has none.
    pub fn ledger(&self, staker: AccountId) -> (r: AccountLedger)
        ensures
            r.locked == self.locked_of(staker),
            r.unbonding_info@ == self.unbonding_of(staker),
            self.wf() ==> r.unbonding_info.wf() && r.unbonding_info@.len()
                <= self.config.max_unlocking_chunks,
    {
        match self.ledger.get(&staker) {
            Some(l) => l.clone(),
            None => AccountLedger::default(),
        }
    }

    /// The totals of `era`, if any were written.
    pub fn era_reward_and_stake(&self, era: EraIndex) -> (r: Option<EraRewardAndStake>)
        ensures
            r is Some == self.era_rewards_and_stakes@.contains_key(era),
            r is Some ==> r->0 == self.era_info(era),
    {
        match self.era_rewards_and_stakes.get(&era) {
            Some(e) => Some(*e),
            None => None,
        }
    }

    /// The index of the provider `id`, if it is known.
    pub fn find(&self, id: &Id) -> (r: Option<usize>)
        requires
            distinct_ids(self.providers@),
        ensures
            r is Some == self.knows(*id),
            r is Some ==> r->0 == index_of(self.providers@, *id),
            r is Some ==> r->0 < self.providers@.len() && self.providers@[r->0 as int].id == *id,
    {
        let mut i: usize = 0;
        while i < self.providers.len()
            invariant
                i <= self.providers.len(),
                forall|j: int| 0 <= j < i ==> self.providers@[j].id != *id,
                distinct_ids(self.providers@),
            decreases self.providers.len() - i,
        {
            if self.providers[i].id.same(id) {
                proof {
                    lemma_index_is(self.providers@, *id, i as int);
                }
                return Some(i);
            }
            i += 1;
        }
        proof {
            lemma_index_of(self.providers@, *id);
        }
        None
    }

    /// The operator and the state of the provider `id`, if it is known.
    pub fn registered_provider(&self, id: &Id) -> (r: Option<RegisteredProvider>)
        requires
            self.wf(),
        ensures
            r is Some == self.knows(*id),
            r is Some ==> r->0 == (RegisteredProvider {
                operator: self.providers@[index_of(self.providers@, *id)].operator,
                state: self.providers@[index_of(self.providers@, *id)].state,
            }),
    {
        match self.find(id) {
            Some(i) => Some(
                RegisteredProvider {
                    operator: self.providers[i].operator,
                    state: self.providers[i].state,
                },
            ),
            None => None,
        }
    }

    /// The stake points of the provider `id` that were written in `era` itself, if any.
    pub fn pool_era_stake(&self, id: &Id, era: EraIndex) -> (r: Option<EraStakingPoints>)
        requires
            self.wf(),
        ensures
            r is Some == self.has_points(*id, era),
            r is Some ==> r->0@ == self.points_of(*id, era),
    {
        match self.find(id) {
            Some(i) => {
                proof {
                    self.lemma_points_within(i as int, era);
                }
                self.providers[i].history.get(era)
            },
            None => None,
        }
    }

    /// The stake points of the provider `id` that hold in `era`: those written in `era`,
    /// else those of the latest era before it with nothing claimed, else none.
    pub fn staking_info(&self, id: &Id, era: EraIndex) -> (r: EraStakingPoints)
        requires
            self.wf(),
        ensures
            r@ == self.points_of(*id, era),
            r@.wf(),
            r.stakers@.len() <= self.config.max_stakers_per_provider,
    {
        match self.find(id) {
            Some(i) => {
                proof {
                    self.lemma_points_within(i as int, era);
                }
                self.providers[i].history.at(era)
            },
            None => {
                proof {
                    assert(crate::dapi_staking::points::stake_amounts(Seq::empty())
                        =~= Seq::<nat>::empty());
                    assert(crate::dapi_staking::points::staker_ids(Seq::empty())
                        =~= Seq::<int>::empty());
                }
                EraStakingPoints::default()
            },
        }
    }

    /// Writes `points` as the stake points of the provider at `idx` in `era`.
    pub(crate) fn write_points(&mut self, idx: usize, era: EraIndex, points: EraStakingPoints)
        requires
            old(self).wf(),
            idx < old(self).providers@.len(),
            era <= old(self).current_era,
            points@.wf(),
            points.stakers@.len() <= old(self).config.max_stakers_per_provider,
        ensures
            final(self).wf(),
            final(self).points_written(old(self), idx as int, era, points@),
            final(self).same_settings(old(self)),
            final(self).ledger == old(self).ledger,
            final(self).era_rewards_and_stakes == old(self).era_rewards_and_stakes,
    {
        let ghost before = self.providers@;
        proof {
            assert(provider_wf(
                before[idx as int],
                self.current_era,
                self.config.max_stakers_per_provider,
            ));
        }
        self.providers[idx].history.put(era, points);
        proof {
            let after = self.providers@;
            assert forall|i: int, j: int| 0 <= i < j < after.len() implies after[i].id
                != after[j].id by {
                assert(after[i].id == before[i].id && after[j].id == before[j].id);
            }
            assert forall|i: int| 0 <= i < after.len() implies provider_wf(
                #[trigger] after[i],
                self.current_era,
                self.config.max_stakers_per_provider,
            ) by {
                assert(provider_wf(
                    before[i],
                    self.current_era,
                    self.config.max_stakers_per_provider,
                ));
                if i == idx {
                    let h = after[i].history.entries@;
                    assert forall|k: int| 0 <= k < h.len() implies (#[trigger] h[k]).era
                        <= self.current_era && h[k].points.stakers@.len()
                        <= self.config.max_stakers_per_provider by {
                        if h[k].era == era {
                            crate::dapi_staking::history::lemma_entry_is_read(h, k);
                        } else {
                            let j = choose|j: int|
                                0 <= j < before[i].history.entries@.len()
                                    && before[i].history.entries@[j] == h[k];
                            assert(before[i].history.entries@[j].era <= self.current_era);
                        }
                    }
                }
            }
        }
    }

    /// Stores the ledger of `staker` and tells the currency which lock goes with it: an
    /// empty ledger is dropped and its lock removed, any other is kept and the lock set
    /// to what it has locked.
    pub fn update_ledger(&mut self, staker: AccountId, ledger: AccountLedger) -> (op: CurrencyOp)
        requires
            old(self).wf(),
            ledger.unbonding_info.wf(),
            ledger.unbonding_info@.len() <= old(self).config.max_unlocking_chunks,
        ensures
            final(self).wf(),
            final(self).ledger@.contains_key(staker) == !ledger.is_empty_spec(),
            final(self).locked_of(staker) == ledger.locked,
            final(self).unbonding_of(staker) == ledger.unbonding_info@,
            final(self).same_ledgers_but(old(self), staker),
            final(self).same_settings(old(self)),
            final(self).era_rewards_and_stakes == old(self).era_rewards_and_stakes,
            final(self).providers == old(self).providers,
            op == if ledger.is_empty_spec() {
                CurrencyOp::RemoveLock { who: staker }
            } else {
                CurrencyOp::SetLock { who: staker, amount: ledger.locked }
            },
    {
        if ledger.is_empty() {
            self.ledger.remove(&staker);
            CurrencyOp::RemoveLock { who: staker }
        } else {
            let amount = ledger.locked;
            self.ledger.insert(staker, ledger);
            CurrencyOp::SetLock { who: staker, amount }
        }
    }

    /// Closes `era` with `reward`: the next era starts with the stake and the locked
    /// total of `era` and no reward, and `era` gets `reward`.
    pub fn reward_balance_snapshot(&mut self, era: EraIndex, reward: Balance)
        requires
            era < u32::MAX,
        ensures
            final(self).era_rewards_and_stakes@ == old(self).era_rewards_and_stakes@.insert(
                (era + 1) as u32,
                EraRewardAndStake { rewards: 0, ..old(self).era_info(era) },
            ).insert(era, EraRewardAndStake { rewards: reward, ..old(self).era_info(era) }),
            final(self).same_settings(old(self)),
            final(self).ledger == old(self).ledger,
            final(self).providers == old(self).providers,
    {
        let mut reward_and_stake = match self.era_rewards_and_stakes.get(&era) {
            Some(e) => *e,
            None => EraRewardAndStake::default(),
        };
        self.era_rewards_and_stakes.insert(
            era + 1,
            EraRewardAndStake {
                rewards: 0,
                staked: reward_and_stake.staked,
                locked: reward_and_stake.locked,
            },
        );
        reward_and_stake.rewards = reward;
        self.era_rewards_and_stakes.insert(era, reward_and_stake);
    }

    /// Takes in a block reward that is not zero: it joins the reward of the running era,
    /// and the currency is told to credit it to the pool account.
    pub fn on_nonzero_unbalanced(&mut self, block_reward: Balance) -> (op: CurrencyOp)
        ensures
            final(self).block_reward_accumulator == capped(
                old(self).block_reward_accumulator + block_reward,
            ),
            final(self).pool_balance == capped(old(self).pool_balance + block_reward),
            final(self).config == old(self).config,
            final(self).current_era == old(self).current_era,
            final(self).force_era == old(self).force_era,
            final(self).ledger == old(self).ledger,
            final(self).era_rewards_and_stakes == old(self).era_rewards_and_stakes,
            final(self).providers == old(self).providers,
            op == (CurrencyOp::Deposit {
                who: old(self).config.pallet_account,
                amount: block_reward,
            }),
            old(self).wf() ==> final(self).wf(),
            old(self).ledgers_balance() ==> final(self).ledgers_balance(),
            old(self).era_totals_balance() ==> final(self).era_totals_balance(),
    {
        self.block_reward_accumulator = self.block_reward_accumulator.saturating_add(block_reward);
        self.pool_balance = self.pool_balance.saturating_add(block_reward);
        proof {
            assert forall|era: EraIndex| self.era_info(era) == old(self).era_info(era) by {}
            assert forall|who: AccountId| self.locked_of(who) == old(self).locked_of(who) by {}
        }
        CurrencyOp::Deposit { who: self.config.pallet_account, amount: block_reward }
    }

    /// Takes in a block reward; one of zero is dropped and changes nothing.
    pub fn on_unbalanced(&mut self, block_reward: Balance) -> (ops: Vec<CurrencyOp>)
        ensures
            final(self).block_reward_accumulator == capped(
                old(self).block_reward_accumulator + block_reward,
            ),
            final(self).pool_balance == capped(old(self).pool_balance + block_reward),
            final(self).config == old(self).config,
            final(self).current_era == old(self).current_era,
            final(self).force_era == old(self).force_era,
            final(self).ledger == old(self).ledger,
            final(self).era_rewards_and_stakes == old(self).era_rewards_and_stakes,
            final(self).providers == old(self).providers,
            ops@ == if block_reward == 0 {
                Seq::<CurrencyOp>::empty()
            } else {
                seq![
                    CurrencyOp::Deposit {
                        who: old(self).config.pallet_account,
                        amount: block_reward,
                    },
                ]
            },
            mints_nothing(ops@),
            old(self).wf() ==> final(self).wf(),
            old(self).ledgers_balance() ==> final(self).ledgers_balance(),
            old(self).era_totals_balance() ==> final(self).era_totals_balance(),
    {
        let mut ops: Vec<CurrencyOp> = Vec::new();
        if block_reward != 0 {
            let op = self.on_nonzero_unbalanced(block_reward);
            ops.push(op);
        }
        ops
    }

    /// Runs at the start of block `now`, before anything else in the block. On an era
    /// boundary the era advances by one, the reward gathered so far becomes the reward
    /// of the era that closes, the new era starts with the totals of the old one, and a
    /// forced era is no longer forced. On any other block nothing changes.
    pub fn on_initialize(&mut self, now: BlockNumber) -> (events: Vec<Event<Id>>)
        requires
            old(self).wf(),
            old(self).current_era < u32::MAX,
        ensures
            final(self).wf(),
            !old(self).is_era_boundary(now) ==> *final(self) == *old(self) && events@
                == Seq::<Event<Id>>::empty(),
            old(self).is_era_boundary(now) ==> {
                &&& final(self).current_era == old(self).current_era + 1
                &&& final(self).block_reward_accumulator == 0
                &&& final(self).force_era == Forcing::ForceNone
                &&& final(self).era_rewards_and_stakes@ == old(self).era_rewards_and_stakes@.insert(
                    (old(self).current_era + 1) as u32,
                    EraRewardAndStake { rewards: 0, ..old(self).era_info(old(self).current_era) },
                ).insert(
                    old(self).current_era,
                    EraRewardAndStake {
                        rewards: old(self).block_reward_accumulator,
                        ..old(self).era_info(old(self).current_era)
                    },
                )
                &&& events@ == seq![Event::<Id>::NewEra((old(self).current_era + 1) as u32)]
            },
            final(self).config == old(self).config,
            final(self).pool_balance == old(self).pool_balance,
            final(self).ledger == old(self).ledger,
            final(self).providers == old(self).providers,
            old(self).ledgers_balance() ==> final(self).ledgers_balance(),
            old(self).era_totals_balance() ==> final(self).era_totals_balance(),
    {
        let mut events: Vec<Event<Id>> = Vec::new();
        let force_new_era = match self.force_era {
            Forcing::ForceNew => true,
            Forcing::ForceNone => false,
        };
        let previous_era = self.current_era;
        if now % self.config.block_per_era == 1 || force_new_era || previous_era == 0 {
            let next_era = previous_era + 1;
            self.current_era = next_era;
            let reward = self.block_reward_accumulator;
            self.block_reward_accumulator = 0;
            self.reward_balance_snapshot(previous_era, reward);
            if force_new_era {
                self.force_era = Forcing::ForceNone;
            }
            events.push(Event::NewEra(next_era));
            proof {
                let ps = self.providers@;
                let max = self.config.max_stakers_per_provider;
                assert forall|i: int| 0 <= i < ps.len() implies provider_wf(
                    #[trigger] ps[i],
                    next_era,
                    max,
                ) by {
                    assert(provider_wf(ps[i], previous_era, max));
                }
                if old(self).ledgers_balance() {
                    assert forall|who: AccountId| #[trigger]
                        self.locked_of(who) == staked_by(ps, next_era, who) + chunks_total(
                            self.unbonding_of(who),
                        ) by {
                        assert(old(self).locked_of(who) == staked_by(ps, previous_era, who)
                            + chunks_total(old(self).unbonding_of(who)));
                        lemma_sums_beyond(ps, previous_era, max, next_era, who);
                    }
                }
                if old(self).era_totals_balance() {
                    assert forall|era: EraIndex| era <= next_era implies (#[trigger] self.era_info(
                        era,
                    )).staked == total_staked(ps, era) by {
                        if era == next_era {
                            assert(old(self).era_info(previous_era).staked == total_staked(
                                ps,
                                previous_era,
                            ));
                            lemma_sums_beyond(ps, previous_era, max, next_era, 0);
                        } else {
                            assert(old(self).era_info(era).staked == total_staked(ps, era));
                        }
                    }
                }
            }
        }
        events
    }
}

} // verus!
