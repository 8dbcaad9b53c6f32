//! Plain values that every part of the engine shares: identifiers, amounts, the
//! commands it hands to the currency, and its errors.

use vstd::prelude::*;
use crate::sums::{lemma_sum_push, sum};

verus! {

/// Identifies an account.
pub type AccountId = u64;

/// An amount of the staking currency.
pub type Balance = u128;

/// Counts eras. Era zero is the time before the first boundary and pays nothing.
pub type EraIndex = u32;

/// Counts blocks.
pub type BlockNumber = u64;

/// The tag under which the engine locks staked balance.
pub const STAKING_ID: [u8; 8] = [0x61, 0x70, 0x69, 0x73, 0x74, 0x61, 0x6b, 0x65];

/// What identifies a provider or a project. The engine and the registry only ever ask
/// whether two identifiers are the same.
pub trait Identifier: Copy {
    /// Whether two identifiers are the same.
    fn same(&self, other: &Self) -> (r: bool)
        ensures
            r == (*self == *other),
    ;
}

/// An identifier of 36 bytes, the length of a UUID in text.
#[derive(Clone, Copy, Debug, PartialEq, Eq)]
pub struct MassbitId(pub [u8; 36]);

impl Identifier for MassbitId {
    fn same(&self, other: &MassbitId) -> (r: bool) {
        let mut i: usize = 0;
        while i < 36
            invariant
                i <= 36,
                forall|k: int| 0 <= k < i ==> self.0@[k] == other.0@[k],
            decreases 36 - i,
        {
            if self.0[i] != other.0[i] {
                return false;
            }
            i += 1;
        }
        proof {
            assert(self.0 =~= other.0);
        }
        true
    }
}

/// Who asks for an operation.
#[derive(Clone, Copy, Debug, PartialEq, Eq, Structural)]
pub enum Origin {
    /// The chain's own authority.
    Root,
    /// An account that signed the request.
    Signed(AccountId),
    /// Nobody in particular.
    Unsigned,
}

/// A command for the currency that holds the accounts. The engine decides; whoever runs
/// it carries the commands out, in the order given.
#[derive(Clone, Copy, Debug, PartialEq, Eq, Structural)]
pub enum CurrencyOp {
    /// Mint `amount`; the new funds are credited by the command that follows.
    Issue { amount: Balance },
    /// Credit `amount` to the free balance of `who`, creating the account if need be.
    Deposit { who: AccountId, amount: Balance },
    /// Take `amount` from the free balance of `who`; the account may die of it.
    Withdraw { who: AccountId, amount: Balance },
    /// Move `amount` of `who` from free to reserved.
    Reserve { who: AccountId, amount: Balance },
    /// Move `amount` of `who` from reserved back to free.
    Unreserve { who: AccountId, amount: Balance },
    /// Set the staking lock of `who` to `amount`, against every kind of withdrawal.
    SetLock { who: AccountId, amount: Balance },
    /// Remove the staking lock of `who`.
    RemoveLock { who: AccountId },
}

/// Why an operation was refused. A refused operation changes nothing.
#[derive(Clone, Copy, Debug, PartialEq, Eq, Structural)]
pub enum Error {
    /// The chain identifier is too long or not among the known ones.
    BadChainId,
    /// The provider, project, chain identifier or fisherman is there already.
    AlreadyExist,
    /// The provider, project, chain identifier or fisherman is not there.
    NotExist,
    /// The caller does not own the provider or project.
    NotOwner,
    /// The caller may not do this.
    PermissionDenied,
    /// The provider is unknown or not in the state that the operation needs.
    NotOperatedProvider,
    /// The provider's reward for the era was paid out already.
    AlreadyClaimedInThisEra,
    /// The era has not closed yet, or lies too far back.
    EraOutOfBounds,
    /// Nothing is known of the era's reward, or the pool cannot pay it.
    UnknownEraReward,
    /// The account has no stake on the provider, or the provider has no staker.
    NotStaked,
    /// The stake would be zero.
    StakingWithNoValue,
    /// The unstake asks for zero.
    UnstakingWithNoValue,
    /// The amount is below the least that is accepted.
    InsufficientValue,
    /// The provider has as many stakers as it may have.
    MaxStakersExceeded,
    /// The staker holds as many era-stake values on the provider as it may hold.
    TooManyEraStakeValues,
    /// The ledger holds as many unlocking chunks as it may hold.
    TooManyUnlockingChunks,
    /// Nothing has unlocked.
    NothingToWithdraw,
    /// A sum does not fit its type.
    Overflow,
    /// The account cannot cover what is to be reserved.
    InsufficientBonding,
    /// The project holds as many deposit chunks as it may hold.
    TooManyDepositChunks,
}

/// What each command credits to an account.
pub open spec fn deposit_amounts(ops: Seq<CurrencyOp>) -> Seq<nat> {
    Seq::new(
        ops.len(),
        |i: int|
            match ops[i] {
                CurrencyOp::Deposit { amount, .. } => amount as nat,
                _ => 0nat,
            },
    )
}

/// What each command takes from an account.
pub open spec fn withdraw_amounts(ops: Seq<CurrencyOp>) -> Seq<nat> {
    Seq::new(
        ops.len(),
        |i: int|
            match ops[i] {
                CurrencyOp::Withdraw { amount, .. } => amount as nat,
                _ => 0nat,
            },
    )
}

/// What the commands credit to accounts, all together.
pub open spec fn deposited(ops: Seq<CurrencyOp>) -> nat {
    sum(deposit_amounts(ops))
}

/// What the commands take from accounts, all together.
pub open spec fn withdrawn(ops: Seq<CurrencyOp>) -> nat {
    sum(withdraw_amounts(ops))
}

/// None of the commands mints.
pub open spec fn mints_nothing(ops: Seq<CurrencyOp>) -> bool {
    forall|i: int| 0 <= i < ops.len() ==> !(#[trigger] ops[i] is Issue)
}

/// What one more command adds to what the commands credit and take.
pub proof fn lemma_ops_push(ops: Seq<CurrencyOp>, op: CurrencyOp)
    ensures
        deposited(ops.push(op)) == deposited(ops) + match op {
            CurrencyOp::Deposit { amount, .. } => amount as nat,
            _ => 0nat,
        },
        withdrawn(ops.push(op)) == withdrawn(ops) + match op {
            CurrencyOp::Withdraw { amount, .. } => amount as nat,
            _ => 0nat,
        },
        mints_nothing(ops) && !(op is Issue) ==> mints_nothing(ops.push(op)),
{
    let d = match op {
        CurrencyOp::Deposit { amount, .. } => amount as nat,
        _ => 0nat,
    };
    let w = match op {
        CurrencyOp::Withdraw { amount, .. } => amount as nat,
        _ => 0nat,
    };
    assert(deposit_amounts(ops.push(op)) =~= deposit_amounts(ops).push(d));
    lemma_sum_push(deposit_amounts(ops), d);
    assert(withdraw_amounts(ops.push(op)) =~= withdraw_amounts(ops).push(w));
    lemma_sum_push(withdraw_amounts(ops), w);
}

/// `x` cut down to the largest balance where it exceeds it.
pub open spec fn capped(x: int) -> Balance {
    if x > u128::MAX {
        u128::MAX
    } else {
        x as u128
    }
}

/// `a - b`, or zero where `b` exceeds `a`.
pub open spec fn minus(a: Balance, b: Balance) -> Balance {
    if a >= b {
        (a - b) as u128
    } else {
        0
    }
}

} // verus!
