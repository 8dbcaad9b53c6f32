//! What holds of the staking engine whatever is done with it.

use vstd::prelude::*;
use crate::dapi_staking::claim::provider_reward;
use crate::dapi_staking::history::{points_after_write, points_at};
use crate::dapi_staking::pallet::{index_of, lemma_index_of, Pallet};
use crate::dapi_staking::points::{stakers_wf, stakes_total};
use crate::dapi_staking::stake::unbond_amount;
use crate::dapi_staking::unbonding::{
    chunk_amounts, chunks_total, lemma_with_chunk, matured, pending, unlock_eras, with_chunk,
    UnlockingChunk,
};
use crate::primitives::{AccountId, Balance, EraIndex, Error, Identifier};
use crate::sorted::{increasing, rank};
use crate::sums::lemma_sum_push;

verus! {

/// In every era, the total staked on a provider is the sum of the stakes of its
/// stakers, who are no more than a provider may have.
pub proof fn total_is_sum_of_stakes<Id: Identifier>(pallet: Pallet<Id>, id: Id, era: EraIndex)
    requires
        pallet.wf(),
    ensures
        pallet.points_of(id, era).total == stakes_total(pallet.points_of(id, era).stakers),
        stakers_wf(pallet.points_of(id, era).stakers),
        pallet.points_of(id, era).stakers.len() <= pallet.config.max_stakers_per_provider,
{
    lemma_index_of(pallet.providers@, id);
    let i = index_of(pallet.providers@, id);
    if i >= 0 {
        pallet.lemma_points_within(i, era);
    } else {
        assert(crate::dapi_staking::points::stake_amounts(Seq::empty()) =~= Seq::<nat>::empty());
        assert(crate::dapi_staking::points::staker_ids(Seq::empty()) =~= Seq::<int>::empty());
    }
}

/// The unbonding queue of every account ascends strictly by unlock era, so that it
/// holds no era twice, and is no longer than a queue may be.
pub proof fn unbonding_queue_in_order<Id: Identifier>(pallet: Pallet<Id>, who: AccountId)
    requires
        pallet.wf(),
    ensures
        increasing(unlock_eras(pallet.unbonding_of(who))),
        pallet.unbonding_of(who).len() <= pallet.config.max_unlocking_chunks,
{
    if pallet.ledger@.contains_key(who) {
        assert(crate::dapi_staking::pallet::ledger_wf(
            pallet.ledger@[who],
            pallet.config.max_unlocking_chunks,
        ));
    } else {
        assert(unlock_eras(Seq::empty()) =~= Seq::<int>::empty());
    }
}

/// A provider's era for which a reward was paid out cannot be claimed: the claim is
/// refused as already made, unless the era is out of bounds.
pub proof fn claimed_era_is_refused<Id: Identifier>(pallet: Pallet<Id>, id: Id, era: EraIndex)
    requires
        pallet.points_of(id, era).claimed_rewards > 0,
        pallet.era_low_bound() <= era < pallet.current_era,
    ensures
        pallet.claim_refusal(id, era) == Some(Error::AlreadyClaimedInThisEra),
{
}

/// A claim that paid something out cannot be made again.
pub proof fn claim_pays_once<Id: Identifier>(
    before: Pallet<Id>,
    after: Pallet<Id>,
    id: Id,
    era: EraIndex,
)
    requires
        before.wf(),
        before.claim_refusal(id, era) is None,
        after.claimed_from(&before, id, era),
        provider_reward(before.points_of(id, era), before.era_info(era)) > 0,
    ensures
        after.claim_refusal(id, era) == Some(Error::AlreadyClaimedInThisEra),
{
    let ps = before.providers@;
    let ps2 = after.providers@;
    lemma_index_of(ps, id);
    let i = index_of(ps, id);
    if i < 0 {
        assert(before.points_of(id, era).stakers.len() == 0);
    }
    assert forall|a: int, b: int| 0 <= a < b < ps2.len() implies ps2[a].id != ps2[b].id by {
        assert(ps2[a].id == ps[a].id && ps2[b].id == ps[b].id);
    }
    crate::dapi_staking::pallet::lemma_index_is(ps2, id, i);
    assert(points_at(ps2[i].history.entries@, era) == points_after_write(
        ps[i].history.entries@,
        era,
        crate::dapi_staking::points::StakingPoints {
            claimed_rewards: provider_reward(before.points_of(id, era), before.era_info(era)),
            ..before.points_of(id, era)
        },
        era,
    ));
}

/// The sum of a queue is the sum of what has unlocked by an era and what has not.
pub proof fn partition_keeps_total(s: Seq<UnlockingChunk>, era: EraIndex)
    ensures
        chunks_total(matured(s, era)) + chunks_total(pending(s, era)) == chunks_total(s),
    decreases s.len(),
{
    reveal(Seq::filter);
    if s.len() == 0 {
        assert(chunk_amounts(matured(s, era)) =~= Seq::<nat>::empty());
        assert(chunk_amounts(pending(s, era)) =~= Seq::<nat>::empty());
        assert(chunk_amounts(s) =~= Seq::<nat>::empty());
    } else {
        let front = s.drop_last();
        let last = s.last();
        partition_keeps_total(front, era);
        assert(chunk_amounts(s) =~= chunk_amounts(front).push(last.amount as nat));
        lemma_sum_push(chunk_amounts(front), last.amount as nat);
        if last.unlock_era <= era {
            assert(matured(s, era) == matured(front, era).push(last));
            assert(pending(s, era) == pending(front, era));
            assert(chunk_amounts(matured(s, era)) =~= chunk_amounts(matured(front, era)).push(
                last.amount as nat,
            ));
            lemma_sum_push(chunk_amounts(matured(front, era)), last.amount as nat);
        } else {
            assert(matured(s, era) == matured(front, era));
            assert(pending(s, era) == pending(front, era).push(last));
            assert(chunk_amounts(pending(s, era)) =~= chunk_amounts(pending(front, era)).push(
                last.amount as nat,
            ));
            lemma_sum_push(chunk_amounts(pending(front, era)), last.amount as nat);
        }
    }
}

/// Adding a chunk to a queue and then splitting the queue at any era loses nothing:
/// the two parts sum to what the queue held and the chunk's amount, as long as that
/// sum is a balance.
pub proof fn add_then_partition_keeps_total(
    s: Seq<UnlockingChunk>,
    chunk: UnlockingChunk,
    era: EraIndex,
)
    requires
        increasing(unlock_eras(s)),
        chunks_total(s) + chunk.amount <= u128::MAX,
    ensures
        chunks_total(matured(with_chunk(s, chunk), era)) + chunks_total(
            pending(with_chunk(s, chunk), era),
        ) == chunks_total(s) + chunk.amount,
{
    lemma_with_chunk(s, chunk);
    partition_keeps_total(with_chunk(s, chunk), era);
}

/// An account that had nothing locked, staked an amount, unstaked all of it and waited
/// for it to unlock, withdraws exactly that amount and is left with an empty ledger,
/// which is dropped.
pub proof fn stake_unstake_withdraw_round_trip<Id: Identifier>(
    fresh: Pallet<Id>,
    staked: Pallet<Id>,
    unstaked: Pallet<Id>,
    waited: Pallet<Id>,
    done: Pallet<Id>,
    staker: AccountId,
    id: Id,
    amount: Balance,
    unlock_era: EraIndex,
)
    requires
        done.wf(),
        fresh.locked_of(staker) == 0,
        fresh.unbonding_of(staker).len() == 0,
        amount > 0,
        staked.staked_from(&fresh, staker, id, amount),
        unstaked.unstaked_from(&staked, staker, id, amount, unlock_era),
        waited.locked_of(staker) == unstaked.locked_of(staker),
        waited.unbonding_of(staker) == unstaked.unbonding_of(staker),
        waited.current_era >= unlock_era,
        done.withdrawn_from(&waited, staker),
    ensures
        waited.withdrawable(staker) == amount,
        done.locked_of(staker) == 0,
        done.unbonding_of(staker).len() == 0,
        !done.ledger@.contains_key(staker),
{
    let chunk = UnlockingChunk { amount, unlock_era };
    let before = staked.unbonding_of(staker);
    assert(before =~= Seq::<UnlockingChunk>::empty());
    assert(unlock_eras(before) =~= Seq::<int>::empty());
    let queue = with_chunk(before, chunk);
    assert(rank(unlock_eras(before), unlock_era as int) == 0);
    assert(queue =~= seq![chunk]);
    let era = waited.current_era;
    reveal_with_fuel(Seq::filter, 2);
    assert(queue.drop_last() =~= Seq::<UnlockingChunk>::empty());
    assert(matured(queue, era) =~= seq![chunk]);
    assert(pending(queue, era) =~= Seq::<UnlockingChunk>::empty());
    assert(chunk_amounts(seq![chunk]) =~= Seq::<nat>::empty().push(amount as nat));
    lemma_sum_push(Seq::<nat>::empty(), amount as nat);
    if done.ledger@.contains_key(staker) {
        assert(crate::dapi_staking::pallet::ledger_wf(
            done.ledger@[staker],
            done.config.max_unlocking_chunks,
        ));
    }
}

/// An unstake that would leave less than the minimum staking amount takes the whole
/// stake.
pub proof fn unstake_below_minimum_drains(current: Balance, value: Balance, minimum: Balance)
    requires
        value > current || current - value < minimum,
    ensures
        unbond_amount(current, value, minimum) == current,
{
}

/// A stake for more than the account can spare is cut down to what it can spare, and
/// refused only if that is nothing.
pub proof fn stake_is_clamped<Id: Identifier>(
    pallet: Pallet<Id>,
    staker: AccountId,
    id: Id,
    value: Balance,
    free_balance: Balance,
)
    requires
        free_balance >= pallet.config.minimum_remaining_amount + pallet.locked_of(staker),
        value > free_balance - pallet.config.minimum_remaining_amount - pallet.locked_of(staker),
    ensures
        pallet.stakeable(staker, value, free_balance) == free_balance
            - pallet.config.minimum_remaining_amount - pallet.locked_of(staker),
        pallet.stake_refusal(staker, id, value, free_balance) == Some(Error::StakingWithNoValue)
            ==> pallet.operates(id) && pallet.stakeable(staker, value, free_balance) == 0,
{
}

} // verus!
