//! The records of the registry: deposits, projects and providers.

use vstd::prelude::*;
use crate::dapi_staking::ProviderState;
use crate::primitives::{capped, AccountId, Balance, BlockNumber};
use crate::sums::{lemma_sum_push, sum};

verus! {

/// An amount that a consumer has reserved for a project, and the block from which it
/// can be taken back.
#[derive(Clone, Copy, Debug, PartialEq, Eq, Structural)]
pub struct Deposit {
    /// The amount that was deposited.
    pub amount: Balance,
    /// The block from which the amount can be unreserved.
    pub unreserved_block_number: BlockNumber,
}

/// The amounts of the deposits, in order.
pub open spec fn deposit_values(s: Seq<Deposit>) -> Seq<nat> {
    Seq::new(s.len(), |i: int| s[i].amount as nat)
}

/// The exact sum of all deposits.
pub open spec fn deposits_total(s: Seq<Deposit>) -> nat {
    sum(deposit_values(s))
}

/// The deposits that can be unreserved at `block_number`, in order.
pub open spec fn ripe_deposits(s: Seq<Deposit>, block_number: BlockNumber) -> Seq<Deposit> {
    s.filter(|d: Deposit| d.unreserved_block_number <= block_number)
}

/// The deposits that cannot be unreserved at `block_number` yet, in order.
pub open spec fn unripe_deposits(s: Seq<Deposit>, block_number: BlockNumber) -> Seq<Deposit> {
    s.filter(|d: Deposit| d.unreserved_block_number > block_number)
}

/// The deposit chunks of a project, in the order in which they were made.
#[derive(Debug, PartialEq, Eq)]
pub struct DepositInfo {
    deposit_chunks: Vec<Deposit>,
}

impl View for DepositInfo {
    type V = Seq<Deposit>;

    closed spec fn view(&self) -> Seq<Deposit> {
        self.deposit_chunks@
    }
}

impl Default for DepositInfo {
    fn default() -> (r: Self)
        ensures
            r@ == Seq::<Deposit>::empty(),
    {
        DepositInfo { deposit_chunks: Vec::new() }
    }
}

impl Clone for DepositInfo {
    fn clone(&self) -> (r: Self)
        ensures
            r@ == self@,
    {
        let mut out: Vec<Deposit> = Vec::new();
        let mut i: usize = 0;
        while i < self.deposit_chunks.len()
            invariant
                i <= self.deposit_chunks.len(),
                out@ == self.deposit_chunks@.take(i as int),
            decreases self.deposit_chunks.len() - i,
        {
            out.push(self.deposit_chunks[i]);
            proof {
                assert(self.deposit_chunks@.take(i + 1) =~= self.deposit_chunks@.take(
                    i as int,
                ).push(self.deposit_chunks@[i as int]));
            }
            i += 1;
        }
        proof {
            assert(self.deposit_chunks@.take(i as int) =~= self.deposit_chunks@);
        }
        DepositInfo { deposit_chunks: out }
    }
}

impl DepositInfo {
    /// The number of deposit chunks.
    pub fn len(&self) -> (r: u32)
        ensures
            r == self@.len() as u32,
    {
        #[verifier::truncate]
        (self.deposit_chunks.len() as u32)
    }

    /// Whether there is no deposit chunk.
    pub fn is_empty(&self) -> (r: bool)
        ensures
            r == (self@.len() == 0),
    {
        self.deposit_chunks.len() == 0
    }

    /// The sum of all deposit chunks, cut down to the largest balance.
    pub fn sum(&self) -> (r: Balance)
        ensures
            r == capped(deposits_total(self@) as int),
    {
        let mut acc: Balance = 0;
        let mut i: usize = 0;
        while i < self.deposit_chunks.len()
            invariant
                i <= self.deposit_chunks.len(),
                acc == capped(sum(deposit_values(self@).take(i as int)) as int),
            decreases self.deposit_chunks.len() - i,
        {
            proof {
                let a = deposit_values(self@);
                assert(a.take(i + 1) =~= a.take(i as int).push(a[i as int]));
                lemma_sum_push(a.take(i as int), a[i as int]);
            }
            acc = acc.saturating_add(self.deposit_chunks[i].amount);
            i += 1;
        }
        proof {
            assert(deposit_values(self@).take(i as int) =~= deposit_values(self@));
        }
        acc
    }

    /// Adds a deposit chunk after the others.
    pub fn add(&mut self, chunk: Deposit)
        ensures
            final(self)@ == old(self)@.push(chunk),
    {
        self.deposit_chunks.push(chunk);
    }

    /// Splits the chunks at `block_number`: first those that can be unreserved by then,
    /// second the others. Both keep their order, and together they hold what there was.
    pub fn partition(self, block_number: BlockNumber) -> (r: (DepositInfo, DepositInfo))
        ensures
            r.0@ == ripe_deposits(self@, block_number),
            r.1@ == unripe_deposits(self@, block_number),
            deposits_total(r.0@) + deposits_total(r.1@) == deposits_total(self@),
            r.0@.len() + r.1@.len() == self@.len(),
    {
        let ghost s = self@;
        let ghost ripe = |d: Deposit| d.unreserved_block_number <= block_number;
        let ghost unripe = |d: Deposit| d.unreserved_block_number > block_number;
        let mut first: Vec<Deposit> = Vec::new();
        let mut second: Vec<Deposit> = Vec::new();
        let mut i: usize = 0;
        proof {
            reveal(Seq::filter);
            assert(s.take(0).filter(ripe) =~= Seq::<Deposit>::empty());
            assert(s.take(0).filter(unripe) =~= Seq::<Deposit>::empty());
            assert(deposit_values(s.take(0)) =~= Seq::<nat>::empty());
            assert(deposit_values(first@) =~= Seq::<nat>::empty());
            assert(deposit_values(second@) =~= Seq::<nat>::empty());
        }
        while i < self.deposit_chunks.len()
            invariant
                i <= self.deposit_chunks.len(),
                s == self.deposit_chunks@,
                ripe == |d: Deposit| d.unreserved_block_number <= block_number,
                unripe == |d: Deposit| d.unreserved_block_number > block_number,
                first@ == s.take(i as int).filter(ripe),
                second@ == s.take(i as int).filter(unripe),
                deposits_total(first@) + deposits_total(second@) == deposits_total(
                    s.take(i as int),
                ),
                first@.len() + second@.len() == i,
            decreases self.deposit_chunks.len() - i,
        {
            let chunk = self.deposit_chunks[i];
            let ghost first_before = first@;
            let ghost second_before = second@;
            proof {
                reveal(Seq::filter);
                assert(s.take(i + 1).drop_last() =~= s.take(i as int));
                assert(s.take(i + 1).last() == chunk);
                assert(deposit_values(s.take(i + 1)) =~= deposit_values(s.take(i as int)).push(
                    chunk.amount as nat,
                ));
                lemma_sum_push(deposit_values(s.take(i as int)), chunk.amount as nat);
            }
            if chunk.unreserved_block_number <= block_number {
                first.push(chunk);
                proof {
                    assert(deposit_values(first@) =~= deposit_values(first_before).push(
                        chunk.amount as nat,
                    ));
                    lemma_sum_push(deposit_values(first_before), chunk.amount as nat);
                }
            } else {
                second.push(chunk);
                proof {
                    assert(deposit_values(second@) =~= deposit_values(second_before).push(
                        chunk.amount as nat,
                    ));
                    lemma_sum_push(deposit_values(second_before), chunk.amount as nat);
                }
            }
            i += 1;
        }
        proof {
            assert(s.take(i as int) =~= s);
        }
        (DepositInfo { deposit_chunks: first }, DepositInfo { deposit_chunks: second })
    }

    /// The chunks, in order.
    pub fn vec(&self) -> (r: Vec<Deposit>)
        ensures
            r@ == self@,
    {
        self.clone().deposit_chunks
    }
}

/// A consumer's project: who owns it, on which chain it runs, how much usage its
/// deposits pay for, and how much of that was used.
#[derive(Debug, PartialEq, Eq)]
pub struct Project {
    pub consumer: AccountId,
    pub chain_id: Vec<u8>,
    /// The usage that the deposits pay for.
    pub quota: u128,
    /// The usage reported so far; never above the quota.
    pub usage: u128,
    pub deposit_info: DepositInfo,
}

impl Clone for Project {
    fn clone(&self) -> (r: Self)
        ensures
            r.consumer == self.consumer,
            r.chain_id@ == self.chain_id@,
            r.quota == self.quota,
            r.usage == self.usage,
            r.deposit_info@ == self.deposit_info@,
    {
        Project {
            consumer: self.consumer,
            chain_id: self.chain_id.clone(),
            quota: self.quota,
            usage: self.usage,
            deposit_info: self.deposit_info.clone(),
        }
    }
}

/// What kind of service a provider offers.
#[derive(Clone, Copy, Debug, PartialEq, Eq, Structural)]
pub enum ProviderType {
    Gateway,
    Node,
}

/// A provider as the registry knows it.
#[derive(Debug, PartialEq, Eq)]
pub struct Provider {
    pub provider_type: ProviderType,
    pub operator: AccountId,
    pub chain_id: Vec<u8>,
    pub state: ProviderState,
}

impl Clone for Provider {
    fn clone(&self) -> (r: Self)
        ensures
            r.provider_type == self.provider_type,
            r.operator == self.operator,
            r.chain_id@ == self.chain_id@,
            r.state == self.state,
    {
        Provider {
            provider_type: self.provider_type,
            operator: self.operator,
            chain_id: self.chain_id.clone(),
            state: self.state,
        }
    }
}

} // verus!
