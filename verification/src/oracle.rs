//! The oracles: the accounts that bring in data from outside the chain.

use std::collections::BTreeSet;
use vstd::prelude::*;
use crate::primitives::AccountId;

verus! {

/// The oracles that there are from the start.
#[derive(Debug, PartialEq, Eq)]
pub struct GenesisConfig {
    pub oracles: Vec<AccountId>,
}

impl Default for GenesisConfig {
    fn default() -> (r: Self)
        ensures
            r.oracles@ == Seq::<AccountId>::empty(),
    {
        GenesisConfig { oracles: Vec::new() }
    }
}

impl GenesisConfig {
    /// The set that holds the accounts named here, and no others.
    pub fn build(&self) -> (r: Pallet)
        ensures
            forall|a: AccountId| r.oracles@.contains(a) == self.oracles@.contains(a),
    {
        let mut pallet = Pallet { oracles: BTreeSet::new() };
        pallet.initialize_oracles(&self.oracles);
        pallet
    }
}

/// The set of oracles.
#[derive(Debug, PartialEq, Eq)]
pub struct Pallet {
    pub oracles: BTreeSet<AccountId>,
}

impl Pallet {
    /// Makes the accounts in `oracles`, and no others, the oracles.
    pub fn initialize_oracles(&mut self, oracles: &Vec<AccountId>)
        ensures
            forall|a: AccountId| final(self).oracles@.contains(a) == oracles@.contains(a),
    {
        let mut ids: BTreeSet<AccountId> = BTreeSet::new();
        let mut i: usize = 0;
        while i < oracles.len()
            invariant
                i <= oracles.len(),
                forall|a: AccountId|
                    ids@.contains(a) == exists|j: int| 0 <= j < i && oracles@[j] == a,
            decreases oracles.len() - i,
        {
            let ghost before = ids@;
            ids.insert(oracles[i]);
            proof {
                assert forall|a: AccountId|
                    ids@.contains(a) == exists|j: int| 0 <= j < i + 1 && oracles@[j] == a by {
                    if before.contains(a) {
                        let j = choose|j: int| 0 <= j < i && oracles@[j] == a;
                        assert(0 <= j < i + 1 && oracles@[j] == a);
                    } else if a == oracles@[i as int] {
                        assert(0 <= i < i + 1 && oracles@[i as int] == a);
                    } else {
                        if exists|j: int| 0 <= j < i + 1 && oracles@[j] == a {
                            let j = choose|j: int| 0 <= j < i + 1 && oracles@[j] == a;
                            assert(0 <= j < i && oracles@[j] == a);
                        }
                    }
                }
            }
            i += 1;
        }
        self.oracles = ids;
    }

    /// Whether `oracle_id` is a oracle.
    pub fn is_member(&self, oracle_id: &AccountId) -> (r: bool)
        ensures
            r == self.oracles@.contains(*oracle_id),
    {
        self.oracles.contains(oracle_id)
    }
}

} // verus!
