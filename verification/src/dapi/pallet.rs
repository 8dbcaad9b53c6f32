//! The registry: which chains are known, who may report, which projects and providers
//! there are, and what each operation on them does.

use std::collections::BTreeSet;
use vstd::prelude::*;
use crate::dapi::types::{Project, Provider, ProviderType};
use crate::dapi_staking;
use crate::primitives::{AccountId, Balance, CurrencyOp, Identifier};

verus! {

/// The constants of the registry.
#[derive(Clone, Copy, Debug, PartialEq, Eq, Structural)]
pub struct Config {
    /// The most bytes that a chain identifier can have.
    pub chain_id_max_length: u32,
    /// How much deposit pays for one unit of quota.
    pub quota_scale: u128,
}

impl Config {
    /// A unit of quota costs something.
    pub open spec fn wf(&self) -> bool {
        self.quota_scale > 0
    }
}

/// What the registry reports.
#[derive(Debug, PartialEq, Eq)]
pub enum Event<Id: Identifier> {
    /// A project was registered.
    ProjectRegistered { project_id: Id, consumer: AccountId, chain_id: Vec<u8>, quota: u128 },
    /// A deposit was added to a project, which now has the quota given.
    ProjectDeposited { project_id: Id, consumer: AccountId, quota: u128 },
    /// A provider was registered.
    ProviderRegistered {
        provider_id: Id,
        provider_type: ProviderType,
        operator: AccountId,
        chain_id: Vec<u8>,
    },
    /// A provider was unregistered.
    ProviderUnregistered { provider_id: Id, provider_type: ProviderType },
    /// Usage of a project was reported, and its quota is not used up.
    ProjectUsageReported { project_id: Id, usage: u128 },
    /// A project has used up its quota.
    ProjectReachedQuota { project_id: Id },
    /// The performance of a provider was reported.
    ProviderPerformanceReported {
        provider_id: Id,
        provider_type: ProviderType,
        requests: u64,
        success_rate: u32,
        average_latency: u32,
    },
    /// An account took back deposits.
    Withdrawn { account: AccountId, amount: Balance },
    /// A chain identifier was added to the known ones.
    ChainIdAdded { chain_id: Vec<u8> },
    /// A chain identifier was removed from the known ones.
    ChainIdRemoved { chain_id: Vec<u8> },
    /// An account may report from now on.
    FishermanAdded { account_id: AccountId },
    /// An account may no longer report.
    FishermanRemoved { account_id: AccountId },
}

/// An event of the registry as plain values.
pub enum EventView<Id: Identifier> {
    ProjectRegistered { project_id: Id, consumer: AccountId, chain_id: Seq<u8>, quota: u128 },
    ProjectDeposited { project_id: Id, consumer: AccountId, quota: u128 },
    ProviderRegistered {
        provider_id: Id,
        provider_type: ProviderType,
        operator: AccountId,
        chain_id: Seq<u8>,
    },
    ProviderUnregistered { provider_id: Id, provider_type: ProviderType },
    ProjectUsageReported { project_id: Id, usage: u128 },
    ProjectReachedQuota { project_id: Id },
    ProviderPerformanceReported {
        provider_id: Id,
        provider_type: ProviderType,
        requests: u64,
        success_rate: u32,
        average_latency: u32,
    },
    Withdrawn { account: AccountId, amount: Balance },
    ChainIdAdded { chain_id: Seq<u8> },
    ChainIdRemoved { chain_id: Seq<u8> },
    FishermanAdded { account_id: AccountId },
    FishermanRemoved { account_id: AccountId },
}

impl<Id: Identifier> View for Event<Id> {
    type V = EventView<Id>;

    open spec fn view(&self) -> EventView<Id> {
        match *self {
            Event::ProjectRegistered { project_id, consumer, chain_id, quota } => {
                EventView::ProjectRegistered { project_id, consumer, chain_id: chain_id@, quota }
            },
            Event::ProjectDeposited { project_id, consumer, quota } => {
                EventView::ProjectDeposited { project_id, consumer, quota }
            },
            Event::ProviderRegistered { provider_id, provider_type, operator, chain_id } => {
                EventView::ProviderRegistered {
                    provider_id,
                    provider_type,
                    operator,
                    chain_id: chain_id@,
                }
            },
            Event::ProviderUnregistered { provider_id, provider_type } => {
                EventView::ProviderUnregistered { provider_id, provider_type }
            },
            Event::ProjectUsageReported { project_id, usage } => {
                EventView::ProjectUsageReported { project_id, usage }
            },
            Event::ProjectReachedQuota { project_id } => {
                EventView::ProjectReachedQuota { project_id }
            },
            Event::ProviderPerformanceReported {
                provider_id,
                provider_type,
                requests,
                success_rate,
                average_latency,
            } => {
                EventView::ProviderPerformanceReported {
                    provider_id,
                    provider_type,
                    requests,
                    success_rate,
                    average_latency,
                }
            },
            Event::Withdrawn { account, amount } => EventView::Withdrawn { account, amount },
            Event::ChainIdAdded { chain_id } => EventView::ChainIdAdded { chain_id: chain_id@ },
            Event::ChainIdRemoved { chain_id } => EventView::ChainIdRemoved { chain_id: chain_id@ },
            Event::FishermanAdded { account_id } => EventView::FishermanAdded { account_id },
            Event::FishermanRemoved { account_id } => EventView::FishermanRemoved { account_id },
        }
    }
}

/// What an operation of the registry that succeeded asks of the currency, and what it
/// and the staking engine report.
#[derive(Debug, PartialEq, Eq)]
pub struct Outcome<Id: Identifier> {
    /// The commands for the currency, in the order in which they are to be carried out.
    pub currency: Vec<CurrencyOp>,
    /// What the staking engine reports.
    pub staking_events: Vec<dapi_staking::Event<Id>>,
    /// What the registry reports.
    pub events: Vec<Event<Id>>,
}

/// The fishermen that there are from the start.
#[derive(Debug, PartialEq, Eq)]
pub struct GenesisConfig {
    pub fishermen: Vec<AccountId>,
}

impl Default for GenesisConfig {
    fn default() -> (r: Self)
        ensures
            r.fishermen@ == Seq::<AccountId>::empty(),
    {
        GenesisConfig { fishermen: Vec::new() }
    }
}

impl GenesisConfig {
    /// A registry with the given constants that holds nothing but the fishermen named
    /// here.
    pub fn build<Id: Identifier>(&self, config: Config) -> (r: Pallet<Id>)
        requires
            config.wf(),
        ensures
            r.wf(),
            r.config == config,
            r.projects@.len() == 0,
            r.providers@.len() == 0,
            r.chain_ids@.len() == 0,
            forall|a: AccountId| r.fishermen@.contains(a) == self.fishermen@.contains(a),
    {
        let mut pallet = Pallet::new(config);
        pallet.initialize_fishermen(&self.fishermen);
        pallet
    }
}

/// A project under its identifier.
#[derive(Debug, PartialEq, Eq)]
pub struct ProjectEntry<Id: Identifier> {
    pub id: Id,
    pub project: Project,
}

/// A provider under its identifier.
#[derive(Debug, PartialEq, Eq)]
pub struct ProviderEntry<Id: Identifier> {
    pub id: Id,
    pub provider: Provider,
}

/// The identifiers of the projects, in order.
pub open spec fn project_ids<Id: Identifier>(s: Seq<ProjectEntry<Id>>) -> Seq<Id> {
    Seq::new(s.len(), |i: int| s[i].id)
}

/// The identifiers of the providers, in order.
pub open spec fn provider_ids<Id: Identifier>(s: Seq<ProviderEntry<Id>>) -> Seq<Id> {
    Seq::new(s.len(), |i: int| s[i].id)
}

/// The chain identifiers as byte sequences, in order.
pub open spec fn chain_views(s: Seq<Vec<u8>>) -> Seq<Seq<u8>> {
    Seq::new(s.len(), |i: int| s[i]@)
}

/// The index at which `id` stands among `ids`, or -1 if it does not.
pub open spec fn position<Id: Identifier>(ids: Seq<Id>, id: Id) -> int
    decreases ids.len(),
{
    if ids.len() == 0 {
        -1
    } else if ids.last() == id {
        ids.len() - 1
    } else {
        position(ids.drop_last(), id)
    }
}

pub proof fn lemma_position<Id: Identifier>(ids: Seq<Id>, id: Id)
    ensures
        -1 <= position(ids, id) < ids.len(),
        position(ids, id) >= 0 ==> ids[position(ids, id)] == id,
        position(ids, id) < 0 ==> forall|j: int| 0 <= j < ids.len() ==> ids[j] != id,
    decreases ids.len(),
{
    if ids.len() > 0 && ids.last() != id {
        lemma_position(ids.drop_last(), id);
        if position(ids, id) < 0 {
            assert forall|j: int| 0 <= j < ids.len() implies ids[j] != id by {
                if j < ids.len() - 1 {
                    assert(ids.drop_last()[j] != id);
                }
            }
        }
    }
}

pub proof fn lemma_position_is<Id: Identifier>(ids: Seq<Id>, id: Id, i: int)
    requires
        ids.no_duplicates(),
        0 <= i < ids.len(),
        ids[i] == id,
    ensures
        position(ids, id) == i,
{
    lemma_position(ids, id);
}

/// Whether two byte strings hold the same bytes.
pub fn same_bytes(a: &Vec<u8>, b: &Vec<u8>) -> (r: bool)
    ensures
        r == (a@ == b@),
{
    if a.len() != b.len() {
        return false;
    }
    let mut i: usize = 0;
    while i < a.len()
        invariant
            i <= a.len(),
            a.len() == b.len(),
            forall|k: int| 0 <= k < i ==> a@[k] == b@[k],
        decreases a.len() - i,
    {
        if a[i] != b[i] {
            return false;
        }
        i += 1;
    }
    proof {
        assert(a@ =~= b@);
    }
    true
}

/// The registry.
pub struct Pallet<Id: Identifier> {
    pub config: Config,
    /// The projects, in the order in which they were registered.
    pub projects: Vec<ProjectEntry<Id>>,
    /// The providers, in the order in which they were registered.
    pub providers: Vec<ProviderEntry<Id>>,
    /// The accounts that may report usage and performance.
    pub fishermen: BTreeSet<AccountId>,
    /// The known chain identifiers.
    pub chain_ids: Vec<Vec<u8>>,
}

impl<Id: Identifier> Pallet<Id> {
    /// No identifier and no chain occurs twice, chain identifiers are within the
    /// length allowed, and no project has used more than its quota.
    pub open spec fn wf(&self) -> bool {
        &&& self.config.wf()
        &&& project_ids(self.projects@).no_duplicates()
        &&& provider_ids(self.providers@).no_duplicates()
        &&& chain_views(self.chain_ids@).no_duplicates()
        &&& forall|i: int|
            0 <= i < self.chain_ids@.len() ==> (#[trigger] self.chain_ids@[i])@.len()
                <= self.config.chain_id_max_length
        &&& forall|i: int|
            0 <= i < self.projects@.len() ==> (#[trigger] self.projects@[i]).project.usage
                <= self.projects@[i].project.quota
    }

    /// Whether a project `id` is registered.
    pub open spec fn knows_project(&self, id: Id) -> bool {
        position(project_ids(self.projects@), id) >= 0
    }

    /// Whether a provider `id` is registered or was.
    pub open spec fn knows_provider(&self, id: Id) -> bool {
        position(provider_ids(self.providers@), id) >= 0
    }

    /// Whether `chain_id` is within the length allowed and among the known chains.
    pub open spec fn good_chain(&self, chain_id: Seq<u8>) -> bool {
        chain_id.len() <= self.config.chain_id_max_length && chain_views(
            self.chain_ids@,
        ).contains(chain_id)
    }

    /// The quota that a deposit of `amount` pays for.
    pub open spec fn quota_for(&self, amount: Balance) -> u128 {
        amount / self.config.quota_scale
    }

    /// Equal in all but the projects.
    pub open spec fn same_but_projects(&self, before: &Pallet<Id>) -> bool {
        &&& self.config == before.config
        &&& self.providers == before.providers
        &&& self.fishermen == before.fishermen
        &&& self.chain_ids == before.chain_ids
    }

    /// Equal in all but the providers.
    pub open spec fn same_but_providers(&self, before: &Pallet<Id>) -> bool {
        &&& self.config == before.config
        &&& self.projects == before.projects
        &&& self.fishermen == before.fishermen
        &&& self.chain_ids == before.chain_ids
    }

    /// The projects are those of `before`, but for the quota, the usage and the deposits
    /// of the one at `idx`.
    pub open spec fn same_projects_but(&self, before: &Pallet<Id>, idx: int) -> bool {
        &&& self.projects@.len() == before.projects@.len()
        &&& forall|j: int|
            0 <= j < self.projects@.len() && j != idx ==> #[trigger] self.projects@[j]
                == before.projects@[j]
        &&& 0 <= idx < self.projects@.len() ==> {
            &&& self.projects@[idx].id == before.projects@[idx].id
            &&& self.projects@[idx].project.consumer == before.projects@[idx].project.consumer
            &&& self.projects@[idx].project.chain_id == before.projects@[idx].project.chain_id
        }
    }

    /// A registry with the given constants that holds nothing.
    pub fn new(config: Config) -> (r: Self)
        requires
            config.wf(),
        ensures
            r.wf(),
            r.config == config,
            r.projects@.len() == 0,
            r.providers@.len() == 0,
            r.fishermen@ == Set::<AccountId>::empty(),
            r.chain_ids@.len() == 0,
    {
        Pallet {
            config,
            projects: Vec::new(),
            providers: Vec::new(),
            fishermen: BTreeSet::new(),
            chain_ids: Vec::new(),
        }
    }

    /// The index of the project `id`, if it is registered.
    pub fn find_project(&self, id: &Id) -> (r: Option<usize>)
        requires
            self.wf(),
        ensures
            r is Some == self.knows_project(*id),
            r is Some ==> r->0 == position(project_ids(self.projects@), *id) && r->0
                < self.projects@.len() && self.projects@[r->0 as int].id == *id,
    {
        let ghost ids = project_ids(self.projects@);
        let mut i: usize = 0;
        while i < self.projects.len()
            invariant
                i <= self.projects.len(),
                ids == project_ids(self.projects@),
                ids.no_duplicates(),
                forall|j: int| 0 <= j < i ==> ids[j] != *id,
            decreases self.projects.len() - i,
        {
            if self.projects[i].id.same(id) {
                proof {
                    lemma_position_is(ids, *id, i as int);
                }
                return Some(i);
            }
            i += 1;
        }
        proof {
            lemma_position(ids, *id);
        }
        None
    }

    /// The index of the provider `id`, if it is known.
    pub fn find_provider(&self, id: &Id) -> (r: Option<usize>)
        requires
            self.wf(),
        ensures
            r is Some == self.knows_provider(*id),
            r is Some ==> r->0 == position(provider_ids(self.providers@), *id) && r->0
                < self.providers@.len() && self.providers@[r->0 as int].id == *id,
    {
        let ghost ids = provider_ids(self.providers@);
        let mut i: usize = 0;
        while i < self.providers.len()
            invariant
                i <= self.providers.len(),
                ids == provider_ids(self.providers@),
                ids.no_duplicates(),
                forall|j: int| 0 <= j < i ==> ids[j] != *id,
            decreases self.providers.len() - i,
        {
            if self.providers[i].id.same(id) {
                proof {
                    lemma_position_is(ids, *id, i as int);
                }
                return Some(i);
            }
            i += 1;
        }
        proof {
            lemma_position(ids, *id);
        }
        None
    }

    /// The index of `chain_id` among the known chains, if it is among them.
    pub fn find_chain(&self, chain_id: &Vec<u8>) -> (r: Option<usize>)
        ensures
            r is Some == chain_views(self.chain_ids@).contains(chain_id@),
            r is Some ==> r->0 < self.chain_ids@.len() && self.chain_ids@[r->0 as int]@
                == chain_id@,
    {
        let ghost views = chain_views(self.chain_ids@);
        let mut i: usize = 0;
        while i < self.chain_ids.len()
            invariant
                i <= self.chain_ids.len(),
                views == chain_views(self.chain_ids@),
                forall|j: int| 0 <= j < i ==> views[j] != chain_id@,
            decreases self.chain_ids.len() - i,
        {
            if same_bytes(&self.chain_ids[i], chain_id) {
                proof {
                    assert(views[i as int] == chain_id@);
                }
                return Some(i);
            }
            i += 1;
        }
        None
    }

    /// Whether `chain_id` is within the length allowed and among the known chains.
    pub fn is_good_chain(&self, chain_id: &Vec<u8>) -> (r: bool)
        ensures
            r == self.good_chain(chain_id@),
    {
        chain_id.len() <= self.config.chain_id_max_length as usize && self.find_chain(
            chain_id,
        ).is_some()
    }

    /// The project `id`, if it is registered.
    pub fn projects(&self, id: &Id) -> (r: Option<Project>)
        requires
            self.wf(),
        ensures
            r is Some == self.knows_project(*id),
            r is Some ==> {
                let p = self.projects@[position(project_ids(self.projects@), *id)].project;
                &&& r->0.consumer == p.consumer
                &&& r->0.chain_id@ == p.chain_id@
                &&& r->0.quota == p.quota
                &&& r->0.usage == p.usage
                &&& r->0.deposit_info@ == p.deposit_info@
            },
    {
        match self.find_project(id) {
            Some(i) => Some(self.projects[i].project.clone()),
            None => None,
        }
    }

    /// The provider `id`, if it is known.
    pub fn providers(&self, id: &Id) -> (r: Option<Provider>)
        requires
            self.wf(),
        ensures
            r is Some == self.knows_provider(*id),
            r is Some ==> {
                let p = self.providers@[position(provider_ids(self.providers@), *id)].provider;
                &&& r->0.provider_type == p.provider_type
                &&& r->0.operator == p.operator
                &&& r->0.chain_id@ == p.chain_id@
                &&& r->0.state == p.state
            },
    {
        match self.find_provider(id) {
            Some(i) => Some(self.providers[i].provider.clone()),
            None => None,
        }
    }

    /// Whether `account_id` may report.
    pub fn is_fisherman(&self, account_id: AccountId) -> (r: bool)
        ensures
            r == self.fishermen@.contains(account_id),
    {
        self.fishermen.contains(&account_id)
    }

    /// The quota that a deposit of `amount` pays for.
    pub fn calculate_quota(&self, amount: Balance) -> (r: u128)
        requires
            self.config.wf(),
        ensures
            r == self.quota_for(amount),
    {
        amount / self.config.quota_scale
    }

    /// Makes the accounts in `fishermen`, and no others, the ones that may report.
    pub fn initialize_fishermen(&mut self, fishermen: &Vec<AccountId>)
        ensures
            forall|a: AccountId| final(self).fishermen@.contains(a) == fishermen@.contains(a),
            final(self).config == old(self).config,
            final(self).projects == old(self).projects,
            final(self).providers == old(self).providers,
            final(self).chain_ids == old(self).chain_ids,
    {
        let mut ids: BTreeSet<AccountId> = BTreeSet::new();
        let mut i: usize = 0;
        while i < fishermen.len()
            invariant
                i <= fishermen.len(),
                forall|a: AccountId|
                    ids@.contains(a) == exists|j: int| 0 <= j < i && fishermen@[j] == a,
            decreases fishermen.len() - i,
        {
            let ghost before = ids@;
            ids.insert(fishermen[i]);
            proof {
                assert forall|a: AccountId|
                    ids@.contains(a) == exists|j: int| 0 <= j < i + 1 && fishermen@[j] == a by {
                    if before.contains(a) {
                        let j = choose|j: int| 0 <= j < i && fishermen@[j] == a;
                        assert(0 <= j < i + 1 && fishermen@[j] == a);
                    } else if a == fishermen@[i as int] {
                        assert(0 <= i < i + 1 && fishermen@[i as int] == a);
                    } else {
                        if exists|j: int| 0 <= j < i + 1 && fishermen@[j] == a {
                            let j = choose|j: int| 0 <= j < i + 1 && fishermen@[j] == a;
                            assert(0 <= j < i && fishermen@[j] == a);
                        }
                    }
                }
            }
            i += 1;
        }
        self.fishermen = ids;
    }
}

} // verus!
