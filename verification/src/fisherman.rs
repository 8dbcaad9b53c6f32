//! The fishermen: the accounts that watch providers and projects.

use std::collections::BTreeSet;
use vstd::prelude::*;
use crate::primitives::AccountId;

verus! {

/// The fishermen that there are from the start.
#[derive(Debug, PartialEq, Eq)]
pub struct GenesisConfig {
    pub fishermen: Vec<AccountId>,
}

impl Default for GenesisConfig {
    fn default() -> (r: Self)
        ensures
            r.fishermen@ == Seq::<AccountId>::empty(),
    {
        GenesisConfig { fishermen: Vec::new() }
    }
}

impl GenesisConfig {
    /// The set that holds the accounts named here, and no others.
    pub fn build(&self) -> (r: Pallet)
        ensures
            forall|a: AccountId| r.fishermen@.contains(a) == self.fishermen@.contains(a),
    {
        let mut pallet = Pallet { fishermen: BTreeSet::new() };
        pallet.initialize_fishermen(&self.fishermen);
        pallet
    }
}

/// The set of fishermen.
#[derive(Debug, PartialEq, Eq)]
pub struct Pallet {
    pub fishermen: BTreeSet<AccountId>,
}

impl Pallet {
    /// Makes the accounts in `fishermen`, and no others, the fishermen.
    pub fn initialize_fishermen(&mut self, fishermen: &Vec<AccountId>)
        ensures
            forall|a: AccountId| final(self).fishermen@.contains(a) == fishermen@.contains(a),
    {
        let mut ids: BTreeSet<AccountId> = BTreeSet::new();
        let mut i: usize = 0;
        while i < fishermen.len()
            invariant
                i <= fishermen.len(),
                forall|a: AccountId|
                    ids@.contains(a) == exists|j: int| 0 <= j < i && fishermen@[j] == a,
            decreases fishermen.len() - i,
        {
            let ghost before = ids@;
            ids.insert(fishermen[i]);
            proof {
                assert forall|a: AccountId|
                    ids@.contains(a) == exists|j: int| 0 <= j < i + 1 && fishermen@[j] == a by {
                    if before.contains(a) {
                        let j = choose|j: int| 0 <= j < i && fishermen@[j] == a;
                        assert(0 <= j < i + 1 && fishermen@[j] == a);
                    } else if a == fishermen@[i as int] {
                        assert(0 <= i < i + 1 && fishermen@[i as int] == a);
                    } else {
                        if exists|j: int| 0 <= j < i + 1 && fishermen@[j] == a {
                            let j = choose|j: int| 0 <= j < i + 1 && fishermen@[j] == a;
                            assert(0 <= j < i && fishermen@[j] == a);
                        }
                    }
                }
            }
            i += 1;
        }
        self.fishermen = ids;
    }

    /// Whether `fishermen_id` is a fisherman.
    pub fn is_member(&self, fishermen_id: &AccountId) -> (r: bool)
        ensures
            r == self.fishermen@.contains(*fishermen_id),
    {
        self.fishermen.contains(fishermen_id)
    }
}

} // verus!
