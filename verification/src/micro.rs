//! Worker assignment to mineral fields and gas buildings, and the per-worker
//! gathering state machine.
use crate::errors::MicroError;
use crate::geometry::{dist2, distance_squared, in_bounds, towards_point, Point};
use crate::keyed::{count_of, find_key, has_key, keys_distinct, lemma_lookup_index, lemma_lookup_push, lemma_lookup_remove, lemma_lookup_set, lookup, remove_key, without_key};
use crate::text::{decimal_chars, push_decimal};
use crate::units::{Tag, UnitSnapshot};
use vstd::prelude::*;

verus! {

/// The kind of a mining asset.
#[derive(Clone, Copy, PartialEq, Eq, Structural, Debug)]
pub enum MinerAsset {
    Minerals,
    Gas,
    Townhall,
}

/// A mineral field, gas building or townhall the mining manager knows of.
#[derive(Debug, Clone, Copy, PartialEq, Eq, Structural)]
pub struct ResourceSite {
    pub resource: MinerAsset,
    pub location: Point,
    pub tag: u64,
}

/// How many workers an asset takes: three on gas, two on minerals, none at a townhall.
pub open spec fn harvesters_for(a: MinerAsset) -> usize {
    match a {
        MinerAsset::Gas => 3,
        MinerAsset::Minerals => 2,
        MinerAsset::Townhall => 0,
    }
}

/// The kind of asset that an observed unit is to the mining manager.
pub open spec fn asset_kind(unit: UnitSnapshot) -> MinerAsset {
    if unit.is_mineral {
        MinerAsset::Minerals
    } else if unit.is_townhall {
        MinerAsset::Townhall
    } else {
        MinerAsset::Gas
    }
}

impl ResourceSite {
    pub fn is_mineral(&self) -> (b: bool)
        ensures
            b == (self.resource == MinerAsset::Minerals),
    {
        self.resource == MinerAsset::Minerals
    }

    pub fn is_gas(&self) -> (b: bool)
        ensures
            b == (self.resource == MinerAsset::Gas),
    {
        self.resource == MinerAsset::Gas
    }

    pub fn is_townhall(&self) -> (b: bool)
        ensures
            b == (self.resource == MinerAsset::Townhall),
    {
        self.resource == MinerAsset::Townhall
    }

    pub fn from_unit(unit: &UnitSnapshot) -> (s: ResourceSite)
        ensures
            s == (ResourceSite { resource: asset_kind(*unit), location: unit.position, tag: unit.tag }),
    {
        ResourceSite {
            resource: if unit.is_mineral {
                MinerAsset::Minerals
            } else if unit.is_townhall {
                MinerAsset::Townhall
            } else {
                MinerAsset::Gas
            },
            location: unit.position,
            tag: unit.tag,
        }
    }

    pub fn harvesters(&self) -> (n: usize)
        ensures
            n == harvesters_for(self.resource),
    {
        match self.resource {
            MinerAsset::Gas => 3,
            MinerAsset::Minerals => 2,
            MinerAsset::Townhall => 0,
        }
    }
}

/// A worker's job: the asset it gathers from and the townhall it returns to.
#[derive(Debug, Clone, Copy, PartialEq, Eq, Structural)]
pub struct MinerAssignment {
    pub resource: ResourceSite,
    pub townhall: ResourceSite,
}

/// Where a worker is in its gathering round.
#[derive(Debug, Clone, Copy, PartialEq, Eq, Structural)]
pub enum MinerMicroState {
    Idle,
    Gather,
    GatherMove(Point),
    ReturnCargo,
    ReturnMove(Point),
}

/// Why the mining manager refused a unit or a worker.
#[derive(Debug, Clone, Copy, PartialEq, Eq, Structural)]
pub enum MiningError {
    NotHarvestable(Tag),
    NotTownhall(Tag),
    NoTownhalls,
    NoResources,
    AlreadyEmployed(u64),
}

/// Assigns workers to mineral fields and gas buildings near townhalls.
pub struct MinerManager {
    miners: Vec<(u64, (MinerAssignment, MinerMicroState))>,
    resource_assignment_counts: Vec<(u64, usize)>,
    assets: Vec<(u64, ResourceSite)>,
    priority: MinerAsset,
}

/// Whether some asset of the list is a townhall.
pub open spec fn has_townhall(assets: Seq<(u64, ResourceSite)>) -> bool {
    exists|i: int| 0 <= i < assets.len() && (#[trigger] assets[i]).1.resource == MinerAsset::Townhall
}

/// The kind the manager fills first: gas if it prefers gas, minerals otherwise.
pub open spec fn first_kind(priority: MinerAsset) -> MinerAsset {
    if priority == MinerAsset::Gas { MinerAsset::Gas } else { MinerAsset::Minerals }
}

/// The kind the manager fills second.
pub open spec fn second_kind(priority: MinerAsset) -> MinerAsset {
    if priority == MinerAsset::Gas { MinerAsset::Minerals } else { MinerAsset::Gas }
}

/// Whether the list holds an asset of kind `kind` with room for another worker.
pub open spec fn open_job_of_kind(assets: Seq<(u64, ResourceSite)>, counts: Seq<(u64, usize)>, kind: MinerAsset) -> bool {
    exists|i: int| 0 <= i < assets.len() && (#[trigger] assets[i]).1.resource == kind
        && count_of(counts, assets[i].1.tag) < harvesters_for(kind)
}

/// Whether `th` is a townhall of the list at least as close to `r` as every other one.
pub open spec fn nearest_townhall(assets: Seq<(u64, ResourceSite)>, r: ResourceSite, th: ResourceSite) -> bool {
    &&& exists|i: int| 0 <= i < assets.len() && (#[trigger] assets[i]).1 == th
    &&& th.resource == MinerAsset::Townhall
    &&& forall|i: int| 0 <= i < assets.len() && (#[trigger] assets[i]).1.resource == MinerAsset::Townhall
        ==> dist2(r.location, th.location) <= dist2(r.location, assets[i].1.location)
}

/// Whether `job` is a job the manager may hand out: an asset with room, of
/// the first kind when there is room at one, and the nearest townhall to it.
pub open spec fn valid_job(assets: Seq<(u64, ResourceSite)>, counts: Seq<(u64, usize)>, priority: MinerAsset, job: MinerAssignment) -> bool {
    &&& exists|i: int| 0 <= i < assets.len() && (#[trigger] assets[i]).1 == job.resource
    &&& (job.resource.resource == first_kind(priority) || (job.resource.resource == second_kind(priority)
        && !open_job_of_kind(assets, counts, first_kind(priority))))
    &&& count_of(counts, job.resource.tag) < harvesters_for(job.resource.resource)
    &&& nearest_townhall(assets, job.resource, job.townhall)
}

impl MinerManager {
    /// The workers with their jobs and states, each worker once.
    pub closed spec fn miners_view(&self) -> Seq<(u64, (MinerAssignment, MinerMicroState))> {
        self.miners@
    }

    /// How many workers were sent to each asset, by asset tag.
    pub closed spec fn counts_view(&self) -> Seq<(u64, usize)> {
        self.resource_assignment_counts@
    }

    /// The known assets, each filed under its own tag.
    pub closed spec fn assets_view(&self) -> Seq<(u64, ResourceSite)> {
        self.assets@
    }

    /// The kind of asset filled first.
    pub closed spec fn priority_view(&self) -> MinerAsset {
        self.priority
    }

    /// The manager's invariant: every table files each tag once, assets sit
    /// under their own tags, and every position lies within the map bounds.
    pub closed spec fn wf(&self) -> bool {
        &&& keys_distinct(self.miners@)
        &&& keys_distinct(self.resource_assignment_counts@)
        &&& keys_distinct(self.assets@)
        &&& forall|i: int| 0 <= i < self.assets@.len() ==> (#[trigger] self.assets@[i]).0 == self.assets@[i].1.tag
        &&& forall|i: int| 0 <= i < self.assets@.len() ==> in_bounds((#[trigger] self.assets@[i]).1.location)
        &&& forall|i: int| 0 <= i < self.miners@.len() ==> in_bounds((#[trigger] self.miners@[i]).1.0.resource.location)
            && in_bounds(self.miners@[i].1.0.townhall.location)
    }

    /// An empty manager that fills minerals first.
    pub fn new() -> (m: MinerManager)
        ensures
            m.wf(),
            m.miners_view() == Seq::<(u64, (MinerAssignment, MinerMicroState))>::empty(),
            m.counts_view() == Seq::<(u64, usize)>::empty(),
            m.assets_view() == Seq::<(u64, ResourceSite)>::empty(),
            m.priority_view() == MinerAsset::Minerals,
    {
        MinerManager { miners: Vec::new(), resource_assignment_counts: Vec::new(), assets: Vec::new(), priority: MinerAsset::Minerals }
    }

    /// Sets the kind of asset filled first; townhalls mean minerals.
    pub fn prioritize(&mut self, resource: MinerAsset)
        requires
            old(self).wf(),
        ensures
            final(self).wf(),
            final(self).priority_view() == (if resource == MinerAsset::Townhall { MinerAsset::Minerals } else { resource }),
            final(self).miners_view() == old(self).miners_view(),
            final(self).counts_view() == old(self).counts_view(),
            final(self).assets_view() == old(self).assets_view(),
    {
        if resource == MinerAsset::Townhall {
            self.priority = MinerAsset::Minerals;
        } else {
            self.priority = resource;
        }
    }

    /// Files an asset under its tag, replacing any asset with that tag.
    pub fn add_resource_site(&mut self, site: ResourceSite)
        requires
            old(self).wf(),
            in_bounds(site.location),
        ensures
            final(self).wf(),
            has_key(old(self).assets_view(), site.tag) ==> exists|i: int| 0 <= i < old(self).assets_view().len()
                && (#[trigger] old(self).assets_view()[i]).0 == site.tag
                && final(self).assets_view() == old(self).assets_view().update(i, (site.tag, site)),
            !has_key(old(self).assets_view(), site.tag) ==> final(self).assets_view() == old(self).assets_view().push((site.tag, site)),
            final(self).miners_view() == old(self).miners_view(),
            final(self).counts_view() == old(self).counts_view(),
            final(self).priority_view() == old(self).priority_view(),
    {
        match find_key(&self.assets, site.tag) {
            Some(i) => {
                proof { lemma_lookup_set(self.assets@, i as int, site); }
                self.assets.set(i, (site.tag, site));
            },
            None => {
                proof { lemma_lookup_push(self.assets@, site.tag, site); }
                self.assets.push((site.tag, site));
            },
        }
    }

    /// Takes on a mineral field or geyser; refuses any other unit.
    pub fn add_resource(&mut self, unit: &UnitSnapshot) -> (r: Result<(), MiningError>)
        requires
            old(self).wf(),
            in_bounds(unit.position),
        ensures
            final(self).wf(),
            (unit.is_mineral || unit.is_geyser) ==> r is Ok && final(self).assets_view() == Self::filed(
                old(self).assets_view(),
                ResourceSite { resource: asset_kind(*unit), location: unit.position, tag: unit.tag },
            ),
            !(unit.is_mineral || unit.is_geyser) ==> r == Err::<(), MiningError>(MiningError::NotHarvestable(Tag { tag: unit.tag, unit_type: unit.unit_type }))
                && final(self).assets_view() == old(self).assets_view(),
            final(self).miners_view() == old(self).miners_view(),
            final(self).counts_view() == old(self).counts_view(),
            final(self).priority_view() == old(self).priority_view(),
    {
        if unit.is_mineral || unit.is_geyser {
            self.add_resource_site(ResourceSite::from_unit(unit));
            Ok(())
        } else {
            Err(MiningError::NotHarvestable(Tag::from_unit(unit)))
        }
    }

    /// Takes on a townhall; refuses any other unit.
    pub fn add_townhall(&mut self, unit: &UnitSnapshot) -> (r: Result<(), MiningError>)
        requires
            old(self).wf(),
            in_bounds(unit.position),
        ensures
            final(self).wf(),
            unit.is_townhall ==> r is Ok && final(self).assets_view() == Self::filed(
                old(self).assets_view(),
                ResourceSite { resource: asset_kind(*unit), location: unit.position, tag: unit.tag },
            ),
            !unit.is_townhall ==> r == Err::<(), MiningError>(MiningError::NotTownhall(Tag { tag: unit.tag, unit_type: unit.unit_type }))
                && final(self).assets_view() == old(self).assets_view(),
            final(self).miners_view() == old(self).miners_view(),
            final(self).counts_view() == old(self).counts_view(),
            final(self).priority_view() == old(self).priority_view(),
    {
        if unit.is_townhall {
            self.add_resource_site(ResourceSite::from_unit(unit));
            Ok(())
        } else {
            Err(MiningError::NotTownhall(Tag::from_unit(unit)))
        }
    }

    /// The asset table after filing `site` under its tag.
    pub open spec fn filed(assets: Seq<(u64, ResourceSite)>, site: ResourceSite) -> Seq<(u64, ResourceSite)> {
        if has_key(assets, site.tag) {
            assets.update(choose|i: int| 0 <= i < assets.len() && (#[trigger] assets[i]).0 == site.tag, (site.tag, site))
        } else {
            assets.push((site.tag, site))
        }
    }

    /// The townhall nearest to `resource`, if there is any townhall.
    fn nearest_townhall_to(&self, resource: &ResourceSite) -> (r: Option<ResourceSite>)
        requires
            self.wf(),
        ensures
            r matches Some(th) ==> nearest_townhall(self.assets@, *resource, th),
            r is None ==> !has_townhall(self.assets@),
    {
        let mut best: Option<ResourceSite> = None;
        let mut best_d: u128 = 0;
        let mut i: usize = 0;
        while i < self.assets.len()
            invariant
                i <= self.assets@.len(),
                best matches Some(b) ==> (exists|j: int| 0 <= j < i && (#[trigger] self.assets@[j]).1 == b)
                    && b.resource == MinerAsset::Townhall
                    && best_d == dist2(resource.location, b.location)
                    && forall|j: int| 0 <= j < i && (#[trigger] self.assets@[j]).1.resource == MinerAsset::Townhall
                        ==> best_d <= dist2(resource.location, self.assets@[j].1.location),
                best is None ==> forall|j: int| 0 <= j < i ==> (#[trigger] self.assets@[j]).1.resource != MinerAsset::Townhall,
            decreases self.assets@.len() - i,
        {
            let site = self.assets[i].1;
            if site.is_townhall() {
                let d = distance_squared(&resource.location, &site.location);
                let better = match best {
                    None => true,
                    Some(_) => d < best_d,
                };
                if better {
                    best = Some(site);
                    best_d = d;
                }
            }
            i = i + 1;
        }
        best
    }

    /// A job at `resource` if it has room for another worker (given `count`
    /// workers there), with the nearest townhall.
    fn job_at_resource(&self, resource: &ResourceSite, count: usize) -> (r: Result<Option<MinerAssignment>, MiningError>)
        requires
            self.wf(),
        ensures
            count >= harvesters_for(resource.resource) ==> r == Ok::<Option<MinerAssignment>, MiningError>(None),
            count < harvesters_for(resource.resource) ==> match r {
                Ok(Some(job)) => job.resource == *resource && nearest_townhall(self.assets@, *resource, job.townhall),
                Ok(None) => false,
                Err(e) => e == MiningError::NoTownhalls && !has_townhall(self.assets@),
            },
    {
        if count < resource.harvesters() {
            match self.nearest_townhall_to(resource) {
                Some(th) => Ok(Some(MinerAssignment { townhall: th, resource: *resource })),
                None => Err(MiningError::NoTownhalls),
            }
        } else {
            Ok(None)
        }
    }

    /// The first asset of kind `kind` with room for another worker, with its job.
    fn find_job_of_kind(&self, kind: MinerAsset) -> (r: Result<Option<MinerAssignment>, MiningError>)
        requires
            self.wf(),
            kind != MinerAsset::Townhall,
        ensures
            !open_job_of_kind(self.assets@, self.resource_assignment_counts@, kind) ==> r == Ok::<Option<MinerAssignment>, MiningError>(None),
            open_job_of_kind(self.assets@, self.resource_assignment_counts@, kind) ==> match r {
                Ok(Some(job)) => (exists|i: int| 0 <= i < self.assets@.len() && (#[trigger] self.assets@[i]).1 == job.resource)
                    && job.resource.resource == kind
                    && count_of(self.resource_assignment_counts@, job.resource.tag) < harvesters_for(kind)
                    && nearest_townhall(self.assets@, job.resource, job.townhall),
                Ok(None) => false,
                Err(e) => e == MiningError::NoTownhalls && !has_townhall(self.assets@),
            },
    {
        let mut i: usize = 0;
        while i < self.assets.len()
            invariant
                self.wf(),
                kind != MinerAsset::Townhall,
                i <= self.assets@.len(),
                forall|j: int| 0 <= j < i ==> !((#[trigger] self.assets@[j]).1.resource == kind
                    && count_of(self.resource_assignment_counts@, self.assets@[j].1.tag) < harvesters_for(kind)),
            decreases self.assets@.len() - i,
        {
            let site = self.assets[i].1;
            if site.resource == kind {
                let count: usize = match find_key(&self.resource_assignment_counts, site.tag) {
                    Some(k) => self.resource_assignment_counts[k].1,
                    None => 0,
                };
                let job = self.job_at_resource(&site, count);
                match job {
                    Ok(None) => {},
                    _ => { return job; },
                }
            }
            i = i + 1;
        }
        Ok(None)
    }

    /// A job for a new worker: the first asset with room, of the kind the
    /// manager fills first if there is room at one, with its nearest townhall.
    fn find_job(&self) -> (r: Result<Option<MinerAssignment>, MiningError>)
        requires
            self.wf(),
        ensures
            !open_job_of_kind(self.assets@, self.resource_assignment_counts@, MinerAsset::Minerals)
                && !open_job_of_kind(self.assets@, self.resource_assignment_counts@, MinerAsset::Gas)
                ==> r == Ok::<Option<MinerAssignment>, MiningError>(None),
            (open_job_of_kind(self.assets@, self.resource_assignment_counts@, MinerAsset::Minerals)
                || open_job_of_kind(self.assets@, self.resource_assignment_counts@, MinerAsset::Gas)) ==> match r {
                Ok(Some(job)) => valid_job(self.assets@, self.resource_assignment_counts@, self.priority, job),
                Ok(None) => false,
                Err(e) => e == MiningError::NoTownhalls && !has_townhall(self.assets@),
            },
    {
        let (first, second) = if self.priority == MinerAsset::Gas {
            (MinerAsset::Gas, MinerAsset::Minerals)
        } else {
            (MinerAsset::Minerals, MinerAsset::Gas)
        };
        let found = self.find_job_of_kind(first);
        match found {
            Ok(None) => self.find_job_of_kind(second),
            _ => found,
        }
    }

    /// The count table after one more worker was sent to asset `tag`.
    pub open spec fn bumped(counts: Seq<(u64, usize)>, tag: u64) -> Seq<(u64, usize)> {
        if has_key(counts, tag) {
            let i = choose|i: int| 0 <= i < counts.len() && (#[trigger] counts[i]).0 == tag;
            counts.update(i, (tag, (counts[i].1 + 1) as usize))
        } else {
            counts.push((tag, 1usize))
        }
    }

    /// The count table after one worker left asset `tag` (never below zero;
    /// an asset without an entry keeps none).
    pub open spec fn dropped(counts: Seq<(u64, usize)>, tag: u64) -> Seq<(u64, usize)> {
        if has_key(counts, tag) {
            let i = choose|i: int| 0 <= i < counts.len() && (#[trigger] counts[i]).0 == tag;
            counts.update(i, (tag, if counts[i].1 > 0 { (counts[i].1 - 1) as usize } else { 0usize }))
        } else {
            counts
        }
    }

    /// Gives `miner` the job, sending one more worker to its asset.
    fn assign_job_to_miner(&mut self, miner: u64, assignment: MinerAssignment)
        requires
            old(self).wf(),
            !has_key(old(self).miners@, miner),
            count_of(old(self).resource_assignment_counts@, assignment.resource.tag) < 3,
            in_bounds(assignment.resource.location),
            in_bounds(assignment.townhall.location),
        ensures
            final(self).wf(),
            final(self).miners@ == old(self).miners@.push((miner, (assignment, MinerMicroState::Idle))),
            final(self).resource_assignment_counts@ == Self::bumped(old(self).resource_assignment_counts@, assignment.resource.tag),
            final(self).assets@ == old(self).assets@,
            final(self).priority == old(self).priority,
    {
        let tag = assignment.resource.tag;
        match find_key(&self.resource_assignment_counts, tag) {
            Some(k) => {
                let c = self.resource_assignment_counts[k].1;
                proof {
                    lemma_lookup_set(self.resource_assignment_counts@, k as int, (c + 1) as usize);
                    let j = choose|j: int| 0 <= j < self.resource_assignment_counts@.len() && (#[trigger] self.resource_assignment_counts@[j]).0 == tag;
                    assert(j == k);
                }
                self.resource_assignment_counts.set(k, (tag, c + 1));
            },
            None => {
                proof { lemma_lookup_push(self.resource_assignment_counts@, tag, 1usize); }
                self.resource_assignment_counts.push((tag, 1));
            },
        }
        proof { lemma_lookup_push(self.miners@, miner, (assignment, MinerMicroState::Idle)); }
        self.miners.push((miner, (assignment, MinerMicroState::Idle)));
    }

    /// Whether the manager holds a townhall.
    fn any_townhall(&self) -> (b: bool)
        requires
            self.wf(),
        ensures
            b == has_townhall(self.assets@),
    {
        let mut i: usize = 0;
        while i < self.assets.len()
            invariant
                i <= self.assets@.len(),
                forall|j: int| 0 <= j < i ==> (#[trigger] self.assets@[j]).1.resource != MinerAsset::Townhall,
            decreases self.assets@.len() - i,
        {
            if self.assets[i].1.is_townhall() {
                return true;
            }
            i = i + 1;
        }
        false
    }

    /// Whether every table of the manager is as it was.
    pub open spec fn unchanged(before: &MinerManager, after: &MinerManager) -> bool {
        &&& after.miners_view() == before.miners_view()
        &&& after.counts_view() == before.counts_view()
        &&& after.assets_view() == before.assets_view()
        &&& after.priority_view() == before.priority_view()
    }

    /// No asset holds more workers than it takes: a mineral field at most
    /// two, a gas building at most three, a townhall none.
    pub open spec fn within_capacity(&self) -> bool {
        forall|i: int| 0 <= i < self.assets_view().len() ==> count_of(self.counts_view(), (#[trigger] self.assets_view()[i]).1.tag)
            <= harvesters_for(self.assets_view()[i].1.resource)
    }

    /// A well-formed manager files each asset's count once, and each asset
    /// under its own tag, once.
    pub proof fn lemma_tables_keyed(&self)
        requires
            self.wf(),
        ensures
            keys_distinct(self.counts_view()),
            keys_distinct(self.assets_view()),
            keys_distinct(self.miners_view()),
            forall|i: int| 0 <= i < self.assets_view().len() ==> (#[trigger] self.assets_view()[i]).0 == self.assets_view()[i].1.tag,
    {
    }

    /// What a request for a job for `miner` is answered in this state.
    pub open spec fn assign_answer(&self, miner: u64) -> Result<(), MiningError> {
        if !has_townhall(self.assets_view()) {
            Err(MiningError::NoTownhalls)
        } else if has_key(self.miners_view(), miner) {
            Err(MiningError::AlreadyEmployed(miner))
        } else if !open_job_of_kind(self.assets_view(), self.counts_view(), MinerAsset::Minerals)
            && !open_job_of_kind(self.assets_view(), self.counts_view(), MinerAsset::Gas) {
            Err(MiningError::NoResources)
        } else {
            Ok(())
        }
    }

    /// `after` is `before` with `miner` taken on, idle, for a job it may be
    /// given.
    pub open spec fn employed(before: &MinerManager, after: &MinerManager, miner: u64) -> bool {
        exists|job: MinerAssignment| #[trigger] valid_job(before.assets_view(), before.counts_view(), before.priority_view(), job)
            && after.miners_view() == before.miners_view().push((miner, (job, MinerMicroState::Idle)))
            && after.counts_view() == Self::bumped(before.counts_view(), job.resource.tag)
            && after.assets_view() == before.assets_view()
            && after.priority_view() == before.priority_view()
    }

    /// The tally of `report`: mineral fields, workers on them, gas
    /// buildings, workers on those.
    pub open spec fn tally(&self) -> (usize, usize, usize, usize) {
        (
            Self::assets_of_kind(self.assets_view(), MinerAsset::Minerals) as usize,
            Self::workers_on_kind(self.miners_view(), MinerAsset::Minerals) as usize,
            Self::assets_of_kind(self.assets_view(), MinerAsset::Gas) as usize,
            Self::workers_on_kind(self.miners_view(), MinerAsset::Gas) as usize,
        )
    }

    /// Gives a worker a job: refused without a townhall, for a worker that
    /// already has one, and when no asset has room.
    pub fn employ_miner(&mut self, miner: u64) -> (r: Result<(), MiningError>)
        requires
            old(self).wf(),
        ensures
            final(self).wf(),
            !has_townhall(old(self).assets_view()) ==> r == Err::<(), MiningError>(MiningError::NoTownhalls)
                && Self::unchanged(old(self), final(self)),
            has_townhall(old(self).assets_view()) && has_key(old(self).miners_view(), miner) ==> r == Err::<(), MiningError>(
                MiningError::AlreadyEmployed(miner),
            ) && Self::unchanged(old(self), final(self)),
            has_townhall(old(self).assets_view()) && !has_key(old(self).miners_view(), miner)
                && !open_job_of_kind(old(self).assets_view(), old(self).counts_view(), MinerAsset::Minerals)
                && !open_job_of_kind(old(self).assets_view(), old(self).counts_view(), MinerAsset::Gas)
                ==> r == Err::<(), MiningError>(MiningError::NoResources) && Self::unchanged(old(self), final(self)),
            has_townhall(old(self).assets_view()) && !has_key(old(self).miners_view(), miner)
                && (open_job_of_kind(old(self).assets_view(), old(self).counts_view(), MinerAsset::Minerals)
                || open_job_of_kind(old(self).assets_view(), old(self).counts_view(), MinerAsset::Gas)) ==> r is Ok
                && exists|job: MinerAssignment| #[trigger] valid_job(old(self).assets_view(), old(self).counts_view(), old(self).priority_view(), job)
                    && final(self).miners_view() == old(self).miners_view().push((miner, (job, MinerMicroState::Idle)))
                    && final(self).counts_view() == Self::bumped(old(self).counts_view(), job.resource.tag)
                    && final(self).assets_view() == old(self).assets_view()
                    && final(self).priority_view() == old(self).priority_view(),
    {
        if !self.any_townhall() {
            return Err(MiningError::NoTownhalls);
        }
        match find_key(&self.miners, miner) {
            Some(_) => { return Err(MiningError::AlreadyEmployed(miner)); },
            None => {},
        }
        match self.find_job() {
            Ok(Some(job)) => {
                proof {
                    let i = choose|i: int| 0 <= i < self.assets@.len() && (#[trigger] self.assets@[i]).1 == job.resource;
                    let j = choose|j: int| 0 <= j < self.assets@.len() && (#[trigger] self.assets@[j]).1 == job.townhall;
                    assert(in_bounds(self.assets@[i].1.location));
                    assert(in_bounds(self.assets@[j].1.location));
                    assert(valid_job(self.assets@, self.resource_assignment_counts@, self.priority, job));
                }
                self.assign_job_to_miner(miner, job);
                Ok(())
            },
            Ok(None) => Err(MiningError::NoResources),
            Err(e) => Err(e),
        }
    }

    /// Gives a worker a job (see `employ_miner`).
    pub fn assign_miner(&mut self, miner: u64) -> (r: Result<(), MiningError>)
        requires
            old(self).wf(),
        ensures
            final(self).wf(),
            !has_townhall(old(self).assets_view()) ==> r == Err::<(), MiningError>(MiningError::NoTownhalls)
                && Self::unchanged(old(self), final(self)),
            has_townhall(old(self).assets_view()) && has_key(old(self).miners_view(), miner) ==> r == Err::<(), MiningError>(
                MiningError::AlreadyEmployed(miner),
            ) && Self::unchanged(old(self), final(self)),
            has_townhall(old(self).assets_view()) && !has_key(old(self).miners_view(), miner)
                && !open_job_of_kind(old(self).assets_view(), old(self).counts_view(), MinerAsset::Minerals)
                && !open_job_of_kind(old(self).assets_view(), old(self).counts_view(), MinerAsset::Gas)
                ==> r == Err::<(), MiningError>(MiningError::NoResources) && Self::unchanged(old(self), final(self)),
            has_townhall(old(self).assets_view()) && !has_key(old(self).miners_view(), miner)
                && (open_job_of_kind(old(self).assets_view(), old(self).counts_view(), MinerAsset::Minerals)
                || open_job_of_kind(old(self).assets_view(), old(self).counts_view(), MinerAsset::Gas)) ==> r is Ok
                && exists|job: MinerAssignment| #[trigger] valid_job(old(self).assets_view(), old(self).counts_view(), old(self).priority_view(), job)
                    && final(self).miners_view() == old(self).miners_view().push((miner, (job, MinerMicroState::Idle)))
                    && final(self).counts_view() == Self::bumped(old(self).counts_view(), job.resource.tag)
                    && final(self).assets_view() == old(self).assets_view()
                    && final(self).priority_view() == old(self).priority_view(),
            r is Ok <==> old(self).assign_answer(miner) is Ok,
            r matches Err(e) ==> old(self).assign_answer(miner) == Err::<(), MiningError>(e),
            r is Ok ==> Self::employed(old(self), final(self), miner),
            r is Err ==> Self::unchanged(old(self), final(self)),
            old(self).within_capacity() ==> final(self).within_capacity(),
    {
        let r = self.employ_miner(miner);
        proof {
            if r is Ok {
                let assets = old(self).assets_view();
                let counts = old(self).counts_view();
                let job = choose|job: MinerAssignment| #[trigger] valid_job(assets, counts, old(self).priority_view(), job)
                    && self.miners_view() == old(self).miners_view().push((miner, (job, MinerMicroState::Idle)))
                    && self.counts_view() == Self::bumped(counts, job.resource.tag)
                    && self.assets_view() == assets
                    && self.priority_view() == old(self).priority_view();
                lemma_count_bumped(counts, job.resource.tag);
                if old(self).within_capacity() {
                    assert forall|i: int| 0 <= i < assets.len() implies count_of(self.counts_view(), (#[trigger] assets[i]).1.tag)
                        <= harvesters_for(assets[i].1.resource) by {
                        if assets[i].1.tag == job.resource.tag {
                            let j = choose|j: int| 0 <= j < assets.len() && (#[trigger] assets[j]).1 == job.resource;
                            assert(assets[j].0 == assets[i].0);
                            assert(i == j);
                        }
                    }
                }
            }
        }
        r
    }

    /// Lets a worker go, one fewer at its asset; false if it had no job here.
    pub fn remove_miner(&mut self, miner: u64) -> (removed: bool)
        requires
            old(self).wf(),
        ensures
            final(self).wf(),
            removed == has_key(old(self).miners_view(), miner),
            removed ==> exists|i: int| 0 <= i < old(self).miners_view().len() && (#[trigger] old(self).miners_view()[i]).0 == miner
                && final(self).miners_view() == old(self).miners_view().remove(i)
                && final(self).counts_view() == Self::dropped(old(self).counts_view(), old(self).miners_view()[i].1.0.resource.tag),
            !removed ==> Self::unchanged(old(self), final(self)),
            !has_key(final(self).miners_view(), miner),
            final(self).assets_view() == old(self).assets_view(),
            final(self).priority_view() == old(self).priority_view(),
    {
        match find_key(&self.miners, miner) {
            Some(i) => {
                proof {
                    lemma_lookup_remove(self.miners@, i as int);
                    crate::keyed::lemma_removed_key_absent(self.miners@, i as int);
                }
                let ghost before = self.miners@;
                let entry = self.miners.remove(i);
                let tag = (entry.1).0.resource.tag;
                match find_key(&self.resource_assignment_counts, tag) {
                    Some(k) => {
                        let c = self.resource_assignment_counts[k].1;
                        let nc: usize = if c > 0 { c - 1 } else { 0 };
                        proof {
                            lemma_lookup_set(self.resource_assignment_counts@, k as int, nc);
                            let j = choose|j: int| 0 <= j < self.resource_assignment_counts@.len() && (#[trigger] self.resource_assignment_counts@[j]).0 == tag;
                            assert(j == k);
                        }
                        self.resource_assignment_counts.set(k, (tag, nc));
                    },
                    None => {},
                }
                proof {
                    assert(before[i as int].0 == miner);
                    assert forall|j: int| 0 <= j < self.miners@.len() implies in_bounds((#[trigger] self.miners@[j]).1.0.resource.location)
                        && in_bounds(self.miners@[j].1.0.townhall.location) by {
                        let sj = if j < i { j } else { j + 1 };
                        assert(self.miners@[j] == before[sj]);
                    }
                }
                true
            },
            None => false,
        }
    }

    /// The tags of the employed workers, in the manager's order.
    pub fn employed_miners(&self) -> (tags: Vec<u64>)
        requires
            self.wf(),
        ensures
            tags@ == self.miners_view().map_values(|e: (u64, (MinerAssignment, MinerMicroState))| e.0),
    {
        let mut tags: Vec<u64> = Vec::new();
        let mut i: usize = 0;
        while i < self.miners.len()
            invariant
                i <= self.miners@.len(),
                tags@ == self.miners@.take(i as int).map_values(|e: (u64, (MinerAssignment, MinerMicroState))| e.0),
            decreases self.miners@.len() - i,
        {
            tags.push(self.miners[i].0);
            i = i + 1;
            assert(self.miners@.take(i as int).map_values(|e: (u64, (MinerAssignment, MinerMicroState))| e.0)
                =~= self.miners@.take(i - 1).map_values(|e: (u64, (MinerAssignment, MinerMicroState))| e.0).push(self.miners@[i - 1].0));
        }
        assert(self.miners@.take(self.miners@.len() as int) =~= self.miners@);
        tags
    }

    /// Jobs offered and taken: `(mineral room, mineral workers, gas room,
    /// gas workers)`, summed over the assets (townhalls count with minerals).
    pub open spec fn saturation_of(assets: Seq<(u64, ResourceSite)>, counts: Seq<(u64, usize)>) -> (int, int, int, int)
        decreases assets.len(),
    {
        if assets.len() == 0 {
            (0, 0, 0, 0)
        } else {
            let prev = Self::saturation_of(assets.drop_last(), counts);
            let s = assets.last().1;
            let c = count_of(counts, s.tag) as int;
            if s.resource == MinerAsset::Gas {
                (prev.0, prev.1, prev.2 + 3, prev.3 + c)
            } else {
                (prev.0 + harvesters_for(s.resource), prev.1 + c, prev.2, prev.3)
            }
        }
    }

    proof fn lemma_saturation_monotone(assets: Seq<(u64, ResourceSite)>, counts: Seq<(u64, usize)>, i: int)
        requires
            0 <= i <= assets.len(),
        ensures
            Self::saturation_of(assets.take(i), counts).0 <= Self::saturation_of(assets, counts).0,
            Self::saturation_of(assets.take(i), counts).1 <= Self::saturation_of(assets, counts).1,
            Self::saturation_of(assets.take(i), counts).2 <= Self::saturation_of(assets, counts).2,
            Self::saturation_of(assets.take(i), counts).3 <= Self::saturation_of(assets, counts).3,
            0 <= Self::saturation_of(assets.take(i), counts).0,
            0 <= Self::saturation_of(assets.take(i), counts).1,
            0 <= Self::saturation_of(assets.take(i), counts).2,
            0 <= Self::saturation_of(assets.take(i), counts).3,
        decreases assets.len() - i,
    {
        if i < assets.len() {
            Self::lemma_saturation_monotone(assets, counts, i + 1);
            assert(assets.take(i + 1).drop_last() =~= assets.take(i));
            Self::lemma_saturation_nonneg(assets.take(i), counts);
        } else {
            assert(assets.take(i) =~= assets);
            Self::lemma_saturation_nonneg(assets, counts);
        }
    }

    proof fn lemma_saturation_nonneg(assets: Seq<(u64, ResourceSite)>, counts: Seq<(u64, usize)>)
        ensures
            0 <= Self::saturation_of(assets, counts).0,
            0 <= Self::saturation_of(assets, counts).1,
            0 <= Self::saturation_of(assets, counts).2,
            0 <= Self::saturation_of(assets, counts).3,
        decreases assets.len(),
    {
        if assets.len() > 0 {
            Self::lemma_saturation_nonneg(assets.drop_last(), counts);
        }
    }

    /// How many jobs are offered and taken at minerals and at gas.
    pub fn saturation(&self) -> (sat: (usize, usize, usize, usize))
        requires
            self.wf(),
            Self::saturation_of(self.assets_view(), self.counts_view()).0 <= usize::MAX,
            Self::saturation_of(self.assets_view(), self.counts_view()).1 <= usize::MAX,
            Self::saturation_of(self.assets_view(), self.counts_view()).2 <= usize::MAX,
            Self::saturation_of(self.assets_view(), self.counts_view()).3 <= usize::MAX,
        ensures
            (sat.0 as int, sat.1 as int, sat.2 as int, sat.3 as int) == Self::saturation_of(self.assets_view(), self.counts_view()),
    {
        let mut mineral_max: usize = 0;
        let mut mineral_assigned: usize = 0;
        let mut gas_max: usize = 0;
        let mut gas_assigned: usize = 0;
        let ghost total = Self::saturation_of(self.assets@, self.resource_assignment_counts@);
        let mut i: usize = 0;
        while i < self.assets.len()
            invariant
                self.wf(),
                i <= self.assets@.len(),
                total == Self::saturation_of(self.assets@, self.resource_assignment_counts@),
                total.0 <= usize::MAX && total.1 <= usize::MAX && total.2 <= usize::MAX && total.3 <= usize::MAX,
                (mineral_max as int, mineral_assigned as int, gas_max as int, gas_assigned as int)
                    == Self::saturation_of(self.assets@.take(i as int), self.resource_assignment_counts@),
            decreases self.assets@.len() - i,
        {
            let site = self.assets[i].1;
            let count: usize = match find_key(&self.resource_assignment_counts, site.tag) {
                Some(k) => self.resource_assignment_counts[k].1,
                None => 0,
            };
            proof {
                assert(self.assets@.take(i + 1).drop_last() =~= self.assets@.take(i as int));
                Self::lemma_saturation_monotone(self.assets@, self.resource_assignment_counts@, i + 1);
            }
            if site.is_gas() {
                gas_max = gas_max + site.harvesters();
                gas_assigned = gas_assigned + count;
            } else {
                mineral_max = mineral_max + site.harvesters();
                mineral_assigned = mineral_assigned + count;
            }
            i = i + 1;
        }
        assert(self.assets@.take(self.assets@.len() as int) =~= self.assets@);
        (mineral_max, mineral_assigned, gas_max, gas_assigned)
    }

    /// The jobs offered over all assets.
    pub open spec fn jobs_offered(assets: Seq<(u64, ResourceSite)>) -> int
        decreases assets.len(),
    {
        if assets.len() == 0 {
            0
        } else {
            Self::jobs_offered(assets.drop_last()) + harvesters_for(assets.last().1.resource)
        }
    }

    proof fn lemma_jobs_offered_prefix(assets: Seq<(u64, ResourceSite)>, i: int)
        requires
            0 <= i <= assets.len(),
        ensures
            0 <= Self::jobs_offered(assets.take(i)) <= Self::jobs_offered(assets),
        decreases assets.len() - i,
    {
        if i < assets.len() {
            Self::lemma_jobs_offered_prefix(assets, i + 1);
            assert(assets.take(i + 1).drop_last() =~= assets.take(i));
            Self::lemma_jobs_offered_nonneg(assets.take(i));
        } else {
            assert(assets.take(i) =~= assets);
            Self::lemma_jobs_offered_nonneg(assets);
        }
    }

    proof fn lemma_jobs_offered_nonneg(assets: Seq<(u64, ResourceSite)>)
        ensures
            0 <= Self::jobs_offered(assets),
        decreases assets.len(),
    {
        if assets.len() > 0 {
            Self::lemma_jobs_offered_nonneg(assets.drop_last());
        }
    }

    /// How many workers all assets together take.
    pub fn available_jobs(&self) -> (n: usize)
        requires
            self.wf(),
            Self::jobs_offered(self.assets_view()) <= usize::MAX,
        ensures
            n == Self::jobs_offered(self.assets_view()),
    {
        let mut n: usize = 0;
        let mut i: usize = 0;
        while i < self.assets.len()
            invariant
                i <= self.assets@.len(),
                Self::jobs_offered(self.assets@) <= usize::MAX,
                n == Self::jobs_offered(self.assets@.take(i as int)),
            decreases self.assets@.len() - i,
        {
            proof {
                assert(self.assets@.take(i + 1).drop_last() =~= self.assets@.take(i as int));
                Self::lemma_jobs_offered_prefix(self.assets@, i + 1);
            }
            let jobs: usize = match self.assets[i].1.resource {
                MinerAsset::Gas => 3,
                MinerAsset::Minerals => 2,
                MinerAsset::Townhall => 0,
            };
            n = n + jobs;
            i = i + 1;
        }
        assert(self.assets@.take(self.assets@.len() as int) =~= self.assets@);
        n
    }

    /// The tag of the asset whose loss ends a job: the townhall's for
    /// townhalls, the resource's otherwise.
    pub open spec fn lost_with(job: MinerAssignment, asset_type: MinerAsset) -> u64 {
        if asset_type == MinerAsset::Townhall { job.townhall.tag } else { job.resource.tag }
    }

    /// The workers, in order, whose jobs end with the loss of `asset`.
    pub open spec fn leaving(miners: Seq<(u64, (MinerAssignment, MinerMicroState))>, asset: u64, asset_type: MinerAsset) -> Seq<u64>
        decreases miners.len(),
    {
        if miners.len() == 0 {
            Seq::empty()
        } else {
            let prev = Self::leaving(miners.drop_last(), asset, asset_type);
            if Self::lost_with(miners.last().1.0, asset_type) == asset { prev.push(miners.last().0) } else { prev }
        }
    }

    /// The workers, in order, whose jobs survive the loss of `asset`.
    pub open spec fn staying(miners: Seq<(u64, (MinerAssignment, MinerMicroState))>, asset: u64, asset_type: MinerAsset) -> Seq<(u64, (MinerAssignment, MinerMicroState))>
        decreases miners.len(),
    {
        if miners.len() == 0 {
            Seq::empty()
        } else {
            let prev = Self::staying(miners.drop_last(), asset, asset_type);
            if Self::lost_with(miners.last().1.0, asset_type) == asset { prev } else { prev.push(miners.last()) }
        }
    }

    /// Forgets an asset and its count, and lets go the workers whose jobs
    /// depended on it. Their assets' counts stay as they were.
    fn remove_asset_assignments(&mut self, removed_asset: u64, asset_type: MinerAsset) -> (out: Vec<u64>)
        requires
            old(self).wf(),
        ensures
            final(self).wf(),
            out@ == Self::leaving(old(self).miners@, removed_asset, asset_type),
            final(self).miners@ == Self::staying(old(self).miners@, removed_asset, asset_type),
            final(self).resource_assignment_counts@ == without_key(old(self).resource_assignment_counts@, removed_asset),
            final(self).assets@ == without_key(old(self).assets@, removed_asset),
            final(self).priority == old(self).priority,
    {
        remove_key(&mut self.resource_assignment_counts, removed_asset);
        let ghost assets_before = self.assets@;
        remove_key(&mut self.assets, removed_asset);
        proof {
            if has_key(assets_before, removed_asset) {
                let i = choose|i: int| 0 <= i < assets_before.len() && #[trigger] assets_before[i].0 == removed_asset;
                assert forall|j: int| 0 <= j < self.assets@.len() implies (#[trigger] self.assets@[j]).0 == self.assets@[j].1.tag
                    && in_bounds(self.assets@[j].1.location) by {
                    let sj = if j < i { j } else { j + 1 };
                    assert(self.assets@[j] == assets_before[sj]);
                }
            }
        }
        let mut out: Vec<u64> = Vec::new();
        let mut kept: Vec<(u64, (MinerAssignment, MinerMicroState))> = Vec::new();
        let mut i: usize = 0;
        while i < self.miners.len()
            invariant
                keys_distinct(self.miners@),
                forall|j: int| 0 <= j < self.miners@.len() ==> in_bounds((#[trigger] self.miners@[j]).1.0.resource.location)
                    && in_bounds(self.miners@[j].1.0.townhall.location),
                i <= self.miners@.len(),
                out@ == Self::leaving(self.miners@.take(i as int), removed_asset, asset_type),
                kept@ == Self::staying(self.miners@.take(i as int), removed_asset, asset_type),
                keys_distinct(kept@),
                forall|k: int| 0 <= k < kept@.len() ==> exists|j: int| 0 <= j < i && #[trigger] kept@[k] == self.miners@[j],
            decreases self.miners@.len() - i,
        {
            let entry = self.miners[i];
            proof { assert(self.miners@.take(i + 1).drop_last() =~= self.miners@.take(i as int)); }
            let lost = if asset_type == MinerAsset::Townhall { (entry.1).0.townhall.tag } else { (entry.1).0.resource.tag };
            if lost == removed_asset {
                out.push(entry.0);
            } else {
                proof {
                    assert(!has_key(kept@, entry.0)) by {
                        if has_key(kept@, entry.0) {
                            let k = choose|k: int| 0 <= k < kept@.len() && #[trigger] kept@[k].0 == entry.0;
                            let j = choose|j: int| 0 <= j < i && kept@[k] == self.miners@[j];
                            assert(self.miners@[j].0 == self.miners@[i as int].0);
                        }
                    }
                    lemma_lookup_push(kept@, entry.0, entry.1);
                }
                let ghost prev = kept@;
                kept.push(entry);
                proof {
                    assert forall|k: int| 0 <= k < kept@.len() implies exists|j: int| 0 <= j < i + 1 && #[trigger] kept@[k] == self.miners@[j] by {
                        if k < prev.len() {
                            assert(kept@[k] == prev[k]);
                        } else {
                            assert(kept@[k] == self.miners@[i as int]);
                        }
                    }
                }
            }
            i = i + 1;
        }
        assert(self.miners@.take(self.miners@.len() as int) =~= self.miners@);
        proof {
            assert forall|k: int| 0 <= k < kept@.len() implies in_bounds((#[trigger] kept@[k]).1.0.resource.location)
                && in_bounds(kept@[k].1.0.townhall.location) by {
                let j = choose|j: int| 0 <= j < i && kept@[k] == self.miners@[j];
            }
        }
        self.miners = kept;
        out
    }

    /// Forgets an asset (see `remove_asset_assignments`).
    fn remove_asset(&mut self, asset: u64, asset_type: MinerAsset) -> (out: Vec<u64>)
        requires
            old(self).wf(),
        ensures
            final(self).wf(),
            out@ == Self::leaving(old(self).miners@, asset, asset_type),
            final(self).miners@ == Self::staying(old(self).miners@, asset, asset_type),
            final(self).resource_assignment_counts@ == without_key(old(self).resource_assignment_counts@, asset),
            final(self).assets@ == without_key(old(self).assets@, asset),
            final(self).priority == old(self).priority,
    {
        let ghost assets_before = self.assets@;
        remove_key(&mut self.assets, asset);
        proof {
            if has_key(assets_before, asset) {
                let i = choose|i: int| 0 <= i < assets_before.len() && #[trigger] assets_before[i].0 == asset;
                assert forall|j: int| 0 <= j < self.assets@.len() implies (#[trigger] self.assets@[j]).0 == self.assets@[j].1.tag
                    && in_bounds(self.assets@[j].1.location) by {
                    let sj = if j < i { j } else { j + 1 };
                    assert(self.assets@[j] == assets_before[sj]);
                }
            }
            assert(!has_key(self.assets@, asset)) by {
                if has_key(self.assets@, asset) {
                    let j = choose|j: int| 0 <= j < self.assets@.len() && #[trigger] self.assets@[j].0 == asset;
                    crate::keyed::lemma_lookup_index(self.assets@, j);
                }
            }
        }
        let out = self.remove_asset_assignments(asset, asset_type);
        out
    }

    /// Forgets a lost townhall; returns the workers that lost their jobs.
    pub fn remove_townhall(&mut self, unit: u64) -> (out: Vec<u64>)
        requires
            old(self).wf(),
        ensures
            final(self).wf(),
            out@ == Self::leaving(old(self).miners_view(), unit, MinerAsset::Townhall),
            final(self).miners_view() == Self::staying(old(self).miners_view(), unit, MinerAsset::Townhall),
            final(self).counts_view() == without_key(old(self).counts_view(), unit),
            final(self).assets_view() == without_key(old(self).assets_view(), unit),
            final(self).priority_view() == old(self).priority_view(),
    {
        self.remove_asset(unit, MinerAsset::Townhall)
    }

    /// Forgets a lost mineral field or gas building; returns the workers that lost their jobs.
    pub fn remove_resource(&mut self, unit: u64, is_minerals: bool) -> (out: Vec<u64>)
        requires
            old(self).wf(),
        ensures
            final(self).wf(),
            out@ == Self::leaving(old(self).miners_view(), unit, if is_minerals { MinerAsset::Minerals } else { MinerAsset::Gas }),
            final(self).miners_view() == Self::staying(old(self).miners_view(), unit, if is_minerals { MinerAsset::Minerals } else { MinerAsset::Gas }),
            final(self).counts_view() == without_key(old(self).counts_view(), unit),
            final(self).assets_view() == without_key(old(self).assets_view(), unit),
            final(self).priority_view() == old(self).priority_view(),
    {
        self.remove_asset(unit, if is_minerals { MinerAsset::Minerals } else { MinerAsset::Gas })
    }

    /// How many assets of kind `kind` the list holds.
    pub open spec fn assets_of_kind(assets: Seq<(u64, ResourceSite)>, kind: MinerAsset) -> nat
        decreases assets.len(),
    {
        if assets.len() == 0 {
            0
        } else {
            Self::assets_of_kind(assets.drop_last(), kind) + if assets.last().1.resource == kind { 1nat } else { 0nat }
        }
    }

    /// How many workers gather from assets of kind `kind`.
    pub open spec fn workers_on_kind(miners: Seq<(u64, (MinerAssignment, MinerMicroState))>, kind: MinerAsset) -> nat
        decreases miners.len(),
    {
        if miners.len() == 0 {
            0
        } else {
            Self::workers_on_kind(miners.drop_last(), kind) + if miners.last().1.0.resource.resource == kind { 1nat } else { 0nat }
        }
    }

    proof fn lemma_assets_of_kind_bounded(assets: Seq<(u64, ResourceSite)>, kind: MinerAsset)
        ensures
            Self::assets_of_kind(assets, kind) <= assets.len(),
        decreases assets.len(),
    {
        if assets.len() > 0 {
            Self::lemma_assets_of_kind_bounded(assets.drop_last(), kind);
        }
    }

    proof fn lemma_workers_on_kind_bounded(miners: Seq<(u64, (MinerAssignment, MinerMicroState))>, kind: MinerAsset)
        ensures
            Self::workers_on_kind(miners, kind) <= miners.len(),
        decreases miners.len(),
    {
        if miners.len() > 0 {
            Self::lemma_workers_on_kind_bounded(miners.drop_last(), kind);
        }
    }

    fn count_assets(&self, kind: MinerAsset) -> (n: usize)
        ensures
            n == Self::assets_of_kind(self.assets@, kind),
    {
        let mut n: usize = 0;
        let mut i: usize = 0;
        while i < self.assets.len()
            invariant
                i <= self.assets@.len(),
                n == Self::assets_of_kind(self.assets@.take(i as int), kind),
            decreases self.assets@.len() - i,
        {
            proof {
                assert(self.assets@.take(i + 1).drop_last() =~= self.assets@.take(i as int));
                Self::lemma_assets_of_kind_bounded(self.assets@.take(i as int), kind);
            }
            if self.assets[i].1.resource == kind {
                n = n + 1;
            }
            i = i + 1;
        }
        assert(self.assets@.take(self.assets@.len() as int) =~= self.assets@);
        n
    }

    fn count_workers(&self, kind: MinerAsset) -> (n: usize)
        ensures
            n == Self::workers_on_kind(self.miners@, kind),
    {
        let mut n: usize = 0;
        let mut i: usize = 0;
        while i < self.miners.len()
            invariant
                i <= self.miners@.len(),
                n == Self::workers_on_kind(self.miners@.take(i as int), kind),
            decreases self.miners@.len() - i,
        {
            proof {
                assert(self.miners@.take(i + 1).drop_last() =~= self.miners@.take(i as int));
                Self::lemma_workers_on_kind_bounded(self.miners@.take(i as int), kind);
            }
            if (self.miners[i].1).0.resource.resource == kind {
                n = n + 1;
            }
            i = i + 1;
        }
        assert(self.miners@.take(self.miners@.len() as int) =~= self.miners@);
        n
    }

    /// How many workers each asset has, by asset tag.
    pub fn assignment_counts(&self) -> (r: Vec<(u64, usize)>)
        ensures
            r@ == self.counts_view(),
    {
        let mut r: Vec<(u64, usize)> = Vec::new();
        let mut i: usize = 0;
        while i < self.resource_assignment_counts.len()
            invariant
                i <= self.resource_assignment_counts@.len(),
                r@ == self.resource_assignment_counts@.subrange(0, i as int),
            decreases self.resource_assignment_counts@.len() - i,
        {
            r.push(self.resource_assignment_counts[i]);
            i = i + 1;
            proof { assert(r@ =~= self.resource_assignment_counts@.subrange(0, i as int)); }
        }
        proof { assert(self.resource_assignment_counts@.subrange(0, i as int) =~= self.resource_assignment_counts@); }
        r
    }

    /// Mineral fields, workers on minerals, gas buildings, workers on gas.
    pub fn report(&self) -> (r: (usize, usize, usize, usize))
        ensures
            r.0 == Self::assets_of_kind(self.assets_view(), MinerAsset::Minerals),
            r.1 == Self::workers_on_kind(self.miners_view(), MinerAsset::Minerals),
            r.2 == Self::assets_of_kind(self.assets_view(), MinerAsset::Gas),
            r.3 == Self::workers_on_kind(self.miners_view(), MinerAsset::Gas),
            r == self.tally(),
    {
        (
            self.count_assets(MinerAsset::Minerals),
            self.count_workers(MinerAsset::Minerals),
            self.count_assets(MinerAsset::Gas),
            self.count_workers(MinerAsset::Gas),
        )
    }

    /// The one-line summary `Patches: fields:workers | Gasses: buildings:workers`.
    pub fn to_text(&self) -> (s: String)
        ensures
            s@ == "Patches: "@ + decimal_chars(Self::assets_of_kind(self.assets_view(), MinerAsset::Minerals)) + ":"@
                + decimal_chars(Self::workers_on_kind(self.miners_view(), MinerAsset::Minerals)) + " | Gasses: "@
                + decimal_chars(Self::assets_of_kind(self.assets_view(), MinerAsset::Gas)) + ":"@
                + decimal_chars(Self::workers_on_kind(self.miners_view(), MinerAsset::Gas)),
    {
        let (minerals, mineral_assignments, gasses, gas_assignments) = self.report();
        let mut s = String::from_str("Patches: ");
        push_decimal(&mut s, minerals);
        s.append(":");
        push_decimal(&mut s, mineral_assignments);
        s.append(" | Gasses: ");
        push_decimal(&mut s, gasses);
        s.append(":");
        push_decimal(&mut s, gas_assignments);
        s
    }
}

/// Within 2.9 map units: close enough to hand in cargo.
pub open spec fn near_for_return(a: Point, b: Point) -> bool {
    100 * dist2(a, b) < 841 * 65536
}

/// Within 2.5 map units: close enough to start gathering.
pub open spec fn near_for_gather(a: Point, b: Point) -> bool {
    4 * dist2(a, b) < 25 * 65536
}

/// The next gathering state of a worker at `unit.position`, carrying cargo
/// or not: walk back to the townhall with cargo and hand it in, walk to the
/// asset without it and gather. The walking targets stop short of the
/// building: 1 unit from minerals, 2.5 from gas, 2.9 from the townhall.
pub open spec fn next_micro_state(unit: UnitSnapshot, state: MinerMicroState, job: MinerAssignment) -> MinerMicroState {
    match (unit.is_carrying_resource, state) {
        (true, MinerMicroState::ReturnMove(p)) => if near_for_return(unit.position, p) {
            MinerMicroState::ReturnCargo
        } else {
            MinerMicroState::ReturnMove(p)
        },
        (true, MinerMicroState::ReturnCargo) => MinerMicroState::ReturnCargo,
        (false, MinerMicroState::ReturnCargo) => MinerMicroState::GatherMove(
            if job.resource.resource == MinerAsset::Minerals {
                towards_point(job.resource.location, unit.position, 256, 1)
            } else {
                towards_point(job.resource.location, unit.position, 640, 1)
            },
        ),
        (false, MinerMicroState::GatherMove(p)) => if near_for_gather(unit.position, p) {
            MinerMicroState::Gather
        } else {
            MinerMicroState::GatherMove(p)
        },
        (false, MinerMicroState::Gather) => MinerMicroState::Gather,
        (true, MinerMicroState::Gather) => MinerMicroState::ReturnMove(towards_point(job.townhall.location, unit.position, 7424, 10)),
        _ => MinerMicroState::ReturnCargo,
    }
}

/// Moves a worker's gathering state on by one observation.
pub fn worker_update(unit: &UnitSnapshot, state: MinerMicroState, assignment: &MinerAssignment) -> (next: MinerMicroState)
    requires
        in_bounds(assignment.resource.location),
        in_bounds(assignment.townhall.location),
    ensures
        next == next_micro_state(*unit, state, *assignment),
{
    match (unit.is_carrying_resource, state) {
        (true, MinerMicroState::ReturnMove(point)) => {
            if 100 * distance_squared(&unit.position, &point) < 841 * 65536 {
                MinerMicroState::ReturnCargo
            } else {
                MinerMicroState::ReturnMove(point)
            }
        },
        (true, MinerMicroState::ReturnCargo) => MinerMicroState::ReturnCargo,
        (false, MinerMicroState::ReturnCargo) => {
            let target = if assignment.resource.is_mineral() {
                assignment.resource.location.towards(unit.position, 256, 1)
            } else {
                assignment.resource.location.towards(unit.position, 640, 1)
            };
            MinerMicroState::GatherMove(target)
        },
        (false, MinerMicroState::GatherMove(point)) => {
            if 4 * distance_squared(&unit.position, &point) < 25 * 65536 {
                MinerMicroState::Gather
            } else {
                MinerMicroState::GatherMove(point)
            }
        },
        (false, MinerMicroState::Gather) => MinerMicroState::Gather,
        (true, MinerMicroState::Gather) => MinerMicroState::ReturnMove(assignment.townhall.location.towards(unit.position, 7424, 10)),
        _ => MinerMicroState::ReturnCargo,
    }
}

/// An order for a worker.
#[derive(Debug, Clone, Copy, PartialEq, Eq, Structural)]
pub enum MinerCommand {
    /// Gather from the asset with this tag.
    Gather(u64),
    /// Hand in the carried cargo.
    ReturnResource,
    /// Walk to the point.
    MoveTo(Point),
    /// Stop.
    Stop,
}

/// The order that goes with a gathering state.
pub open spec fn command_for(state: MinerMicroState, job: MinerAssignment) -> MinerCommand {
    match state {
        MinerMicroState::Gather => MinerCommand::Gather(job.resource.tag),
        MinerMicroState::ReturnCargo => MinerCommand::ReturnResource,
        MinerMicroState::GatherMove(p) => MinerCommand::MoveTo(p),
        MinerMicroState::ReturnMove(p) => MinerCommand::MoveTo(p),
        MinerMicroState::Idle => MinerCommand::Stop,
    }
}

/// The order a worker in `state` gets.
pub fn worker_micro(state: &MinerMicroState, assignment: &MinerAssignment) -> (c: MinerCommand)
    ensures
        c == command_for(*state, *assignment),
{
    match state {
        MinerMicroState::Gather => MinerCommand::Gather(assignment.resource.tag),
        MinerMicroState::ReturnCargo => MinerCommand::ReturnResource,
        MinerMicroState::GatherMove(p) | MinerMicroState::ReturnMove(p) => MinerCommand::MoveTo(*p),
        MinerMicroState::Idle => MinerCommand::Stop,
    }
}
/// The workers' table after each observed unit in turn moved its worker's
/// gathering state on; units without a job change nothing.
pub open spec fn observed(miners: Seq<(u64, (MinerAssignment, MinerMicroState))>, units: Seq<UnitSnapshot>) -> Seq<(u64, (MinerAssignment, MinerMicroState))>
    decreases units.len(),
{
    if units.len() == 0 {
        miners
    } else {
        let m = observed(miners, units.drop_last());
        let u = units.last();
        if has_key(m, u.tag) {
            let i = choose|i: int| 0 <= i < m.len() && (#[trigger] m[i]).0 == u.tag;
            m.update(i, (u.tag, (m[i].1.0, next_micro_state(u, m[i].1.1, m[i].1.0))))
        } else {
            m
        }
    }
}

/// The observed units, in order, that have no job here.
pub open spec fn unregistered(miners: Seq<(u64, (MinerAssignment, MinerMicroState))>, units: Seq<UnitSnapshot>) -> Seq<MicroError>
    decreases units.len(),
{
    if units.len() == 0 {
        Seq::empty()
    } else {
        let prev = unregistered(miners, units.drop_last());
        let u = units.last();
        if has_key(miners, u.tag) { prev } else { prev.push(MicroError::UnitNotRegistered(Tag { tag: u.tag, unit_type: u.unit_type })) }
    }
}

/// The orders, in unit order, for the observed units that have a job here.
pub open spec fn orders(miners: Seq<(u64, (MinerAssignment, MinerMicroState))>, units: Seq<UnitSnapshot>) -> Seq<(u64, MinerCommand)>
    decreases units.len(),
{
    if units.len() == 0 {
        Seq::empty()
    } else {
        let prev = orders(miners, units.drop_last());
        let u = units.last();
        match lookup(miners, u.tag) {
            Some(e) => prev.push((u.tag, command_for(e.1, e.0))),
            None => prev,
        }
    }
}

impl MinerManager {
    /// Moves each observed worker's gathering state on; reports the observed
    /// units that have no job here.
    pub fn update_miners(&mut self, my_units: &Vec<UnitSnapshot>) -> (errs: Vec<MicroError>)
        requires
            old(self).wf(),
        ensures
            final(self).wf(),
            final(self).miners_view() == observed(old(self).miners_view(), my_units@),
            errs@ == unregistered(old(self).miners_view(), my_units@),
            final(self).counts_view() == old(self).counts_view(),
            final(self).assets_view() == old(self).assets_view(),
            final(self).priority_view() == old(self).priority_view(),
    {
        let ghost start = self.miners@;
        let mut errs: Vec<MicroError> = Vec::new();
        let mut i: usize = 0;
        while i < my_units.len()
            invariant
                self.wf(),
                i <= my_units@.len(),
                self.miners@ == observed(start, my_units@.take(i as int)),
                errs@ == unregistered(start, my_units@.take(i as int)),
                forall|k: u64| #[trigger] has_key(self.miners@, k) == has_key(start, k),
                self.resource_assignment_counts@ == old(self).resource_assignment_counts@,
                self.assets@ == old(self).assets@,
                self.priority == old(self).priority,
            decreases my_units@.len() - i,
        {
            let unit = my_units[i];
            proof {
                assert(my_units@.take(i + 1).drop_last() =~= my_units@.take(i as int));
                assert(my_units@.take(i + 1).last() == unit);
            }
            match find_key(&self.miners, unit.tag) {
                Some(k) => {
                    let entry = self.miners[k];
                    let job = (entry.1).0;
                    let next = worker_update(&unit, (entry.1).1, &job);
                    proof {
                        lemma_lookup_set(self.miners@, k as int, (job, next));
                        let j = choose|j: int| 0 <= j < self.miners@.len() && (#[trigger] self.miners@[j]).0 == unit.tag;
                        assert(j == k);
                        assert forall|q: u64| #[trigger] has_key(self.miners@.update(k as int, (unit.tag, (job, next))), q) == has_key(start, q) by {
                            crate::keyed::lemma_lookup_set(self.miners@, k as int, (job, next));
                            assert(lookup(self.miners@.update(k as int, (unit.tag, (job, next))), q) is Some <==> has_key(self.miners@.update(k as int, (unit.tag, (job, next))), q));
                            assert(lookup(self.miners@, q) is Some <==> has_key(self.miners@, q));
                        }
                    }
                    let ghost before = self.miners@;
                    self.miners.set(k, (unit.tag, (job, next)));
                    proof {
                        assert forall|j: int| 0 <= j < self.miners@.len() implies in_bounds((#[trigger] self.miners@[j]).1.0.resource.location)
                            && in_bounds(self.miners@[j].1.0.townhall.location) by {
                            assert(self.miners@[j].1.0 == before[j].1.0);
                        }
                    }
                },
                None => {
                    errs.push(MicroError::UnitNotRegistered(Tag::from_unit(&unit)));
                },
            }
            i = i + 1;
        }
        assert(my_units@.take(my_units@.len() as int) =~= my_units@);
        errs
    }

    /// The orders for the observed workers with a job here, and the observed
    /// units without one.
    pub fn micro_miners(&self, my_units: &Vec<UnitSnapshot>) -> (r: (Vec<(u64, MinerCommand)>, Vec<MicroError>))
        requires
            self.wf(),
        ensures
            r.0@ == orders(self.miners_view(), my_units@),
            r.1@ == unregistered(self.miners_view(), my_units@),
    {
        let mut cmds: Vec<(u64, MinerCommand)> = Vec::new();
        let mut errs: Vec<MicroError> = Vec::new();
        let mut i: usize = 0;
        while i < my_units.len()
            invariant
                self.wf(),
                i <= my_units@.len(),
                cmds@ == orders(self.miners@, my_units@.take(i as int)),
                errs@ == unregistered(self.miners@, my_units@.take(i as int)),
            decreases my_units@.len() - i,
        {
            let unit = my_units[i];
            proof {
                assert(my_units@.take(i + 1).drop_last() =~= my_units@.take(i as int));
                assert(my_units@.take(i + 1).last() == unit);
            }
            match find_key(&self.miners, unit.tag) {
                Some(k) => {
                    let entry = self.miners[k];
                    cmds.push((unit.tag, worker_micro(&(entry.1).1, &(entry.1).0)));
                },
                None => {
                    errs.push(MicroError::UnitNotRegistered(Tag::from_unit(&unit)));
                },
            }
            i = i + 1;
        }
        assert(my_units@.take(my_units@.len() as int) =~= my_units@);
        (cmds, errs)
    }
}
/// After one more worker is sent to asset `tag`, its count is one higher and
/// every other asset's count is as it was.
pub proof fn lemma_count_bumped(counts: Seq<(u64, usize)>, tag: u64)
    requires
        keys_distinct(counts),
        count_of(counts, tag) < usize::MAX,
    ensures
        keys_distinct(MinerManager::bumped(counts, tag)),
        forall|t: u64| #[trigger] count_of(MinerManager::bumped(counts, tag), t) == if t == tag { count_of(counts, tag) + 1 } else { count_of(counts, t) as int },
{
    if has_key(counts, tag) {
        let i = choose|i: int| 0 <= i < counts.len() && (#[trigger] counts[i]).0 == tag;
        lemma_lookup_index(counts, i);
        lemma_lookup_set(counts, i, (counts[i].1 + 1) as usize);
    } else {
        lemma_lookup_push(counts, tag, 1usize);
    }
}

/// After one worker leaves asset `tag`, its count is one lower (never below
/// zero) and every other asset's count is as it was.
pub proof fn lemma_count_dropped(counts: Seq<(u64, usize)>, tag: u64)
    requires
        keys_distinct(counts),
    ensures
        keys_distinct(MinerManager::dropped(counts, tag)),
        forall|t: u64| #[trigger] count_of(MinerManager::dropped(counts, tag), t) == if t == tag {
            if count_of(counts, tag) > 0 { count_of(counts, tag) - 1 } else { 0 }
        } else {
            count_of(counts, t) as int
        },
{
    if has_key(counts, tag) {
        let i = choose|i: int| 0 <= i < counts.len() && (#[trigger] counts[i]).0 == tag;
        lemma_lookup_index(counts, i);
        lemma_lookup_set(counts, i, if counts[i].1 > 0 { (counts[i].1 - 1) as usize } else { 0usize });
    }
}

/// A worker is only ever sent to an asset with room: after employment the
/// asset holds at most as many workers as it takes, and no other count moves.
pub proof fn law_employment_within_capacity(
    assets: Seq<(u64, ResourceSite)>,
    counts: Seq<(u64, usize)>,
    priority: MinerAsset,
    job: MinerAssignment,
)
    requires
        keys_distinct(counts),
        valid_job(assets, counts, priority, job),
    ensures
        count_of(MinerManager::bumped(counts, job.resource.tag), job.resource.tag) <= harvesters_for(job.resource.resource),
        forall|t: u64| t != job.resource.tag ==> #[trigger] count_of(MinerManager::bumped(counts, job.resource.tag), t) == count_of(counts, t),
{
    lemma_count_bumped(counts, job.resource.tag);
}

/// Employing a worker and then letting it go leaves the workers as they
/// were and every asset's count as it was.
pub proof fn law_employ_then_release(
    miners: Seq<(u64, (MinerAssignment, MinerMicroState))>,
    counts: Seq<(u64, usize)>,
    miner: u64,
    job: MinerAssignment,
)
    requires
        keys_distinct(miners),
        keys_distinct(counts),
        !has_key(miners, miner),
        count_of(counts, job.resource.tag) < usize::MAX,
    ensures
        ({
            let hired = miners.push((miner, (job, MinerMicroState::Idle)));
            forall|i: int| 0 <= i < hired.len() && (#[trigger] hired[i]).0 == miner ==> hired.remove(i) == miners
                && hired[i].1.0.resource.tag == job.resource.tag
        }),
        forall|t: u64| #[trigger] count_of(MinerManager::dropped(MinerManager::bumped(counts, job.resource.tag), job.resource.tag), t) == count_of(counts, t),
{
    let hired = miners.push((miner, (job, MinerMicroState::Idle)));
    assert forall|i: int| 0 <= i < hired.len() && (#[trigger] hired[i]).0 == miner implies hired.remove(i) == miners
        && hired[i].1.0.resource.tag == job.resource.tag by {
        if i < miners.len() {
            assert(miners[i].0 == miner);
        }
        assert(hired.remove(i) =~= miners);
    }
    lemma_count_bumped(counts, job.resource.tag);
    lemma_count_dropped(MinerManager::bumped(counts, job.resource.tag), job.resource.tag);
}


impl MinerManager {
    /// One step of speed mining: moves each observed worker's gathering state
    /// on, gives a job to each observed worker without one, and hands back
    /// the orders for the workers with a job, with the refusals of the
    /// workers that got none.
    pub fn micro(&mut self, units: &Vec<UnitSnapshot>) -> (r: (Vec<(u64, MinerCommand)>, Vec<MiningError>))
        requires
            old(self).wf(),
        ensures
            final(self).wf(),
            final(self).assets_view() == old(self).assets_view(),
            final(self).priority_view() == old(self).priority_view(),
            final(self).miners_view().len() >= observed(old(self).miners_view(), units@).len(),
            final(self).miners_view().subrange(0, observed(old(self).miners_view(), units@).len() as int)
                == observed(old(self).miners_view(), units@),
            r.0@ == orders(final(self).miners_view(), units@),
            r.1@.len() <= unregistered(old(self).miners_view(), units@).len(),
    {
        let errors = self.update_miners(units);
        let ghost base = self.miners_view();
        let mut failed: Vec<MiningError> = Vec::new();
        let mut i: usize = 0;
        proof {
            assert(base.subrange(0, base.len() as int) =~= base);
        }
        while i < errors.len()
            invariant
                self.wf(),
                i <= errors@.len(),
                failed@.len() <= i,
                self.assets_view() == old(self).assets_view(),
                self.priority_view() == old(self).priority_view(),
                self.miners_view().len() >= base.len(),
                self.miners_view().subrange(0, base.len() as int) == base,
            decreases errors@.len() - i,
        {
            let ghost before = self.miners_view();
            match errors[i] {
                MicroError::UnitNotRegistered(tag) => {
                    if let Err(second_error) = self.employ_miner(tag.tag) {
                        failed.push(second_error);
                    }
                },
            }
            proof {
                if self.miners_view().len() > before.len() {
                    assert(self.miners_view().subrange(0, base.len() as int) =~= before.subrange(0, base.len() as int));
                }
            }
            i = i + 1;
        }
        let (commands, _) = self.micro_miners(units);
        (commands, failed)
    }
}

impl Default for MinerManager {
    /// An empty manager that fills minerals first.
    fn default() -> (m: Self)
        ensures
            m.wf(),
            m.miners_view() == Seq::<(u64, (MinerAssignment, MinerMicroState))>::empty(),
            m.counts_view() == Seq::<(u64, usize)>::empty(),
            m.assets_view() == Seq::<(u64, ResourceSite)>::empty(),
            m.priority_view() == MinerAsset::Minerals,
    {
        MinerManager::new()
    }
}


/// The gathering round moves on: a worker without cargo walking to its
/// gathering spot starts gathering once within 2.5 map units (640 fixed-point
/// steps) of it, and walks on while farther; a worker that gathered and now
/// carries cargo walks back; one walking back with cargo hands it in once
/// within 2.9 map units of its spot; one that handed its cargo in walks to
/// its asset again.
pub proof fn law_gathering_round_moves_on(unit: UnitSnapshot, p: Point, job: MinerAssignment)
    ensures
        !unit.is_carrying_resource && dist2(unit.position, p) * 4 < 25 * 256 * 256
            ==> next_micro_state(unit, MinerMicroState::GatherMove(p), job) == MinerMicroState::Gather,
        !unit.is_carrying_resource && dist2(unit.position, p) * 4 >= 25 * 256 * 256
            ==> next_micro_state(unit, MinerMicroState::GatherMove(p), job) == MinerMicroState::GatherMove(p),
        unit.is_carrying_resource ==> (next_micro_state(unit, MinerMicroState::Gather, job) matches MinerMicroState::ReturnMove(_)),
        unit.is_carrying_resource && dist2(unit.position, p) * 100 < 841 * 256 * 256
            ==> next_micro_state(unit, MinerMicroState::ReturnMove(p), job) == MinerMicroState::ReturnCargo,
        !unit.is_carrying_resource ==> (next_micro_state(unit, MinerMicroState::ReturnCargo, job) matches MinerMicroState::GatherMove(_)),
{
}

/// Losing an asset releases exactly the workers whose jobs used it: after a
/// townhall is lost no remaining worker returns cargo to it, and every
/// worker that did is among those released; after a mineral field or gas
/// building is lost no remaining worker gathers there, and every worker
/// that did is released. Workers whose jobs did not use it stay.
pub proof fn law_lost_asset_releases_its_workers(miners: Seq<(u64, (MinerAssignment, MinerMicroState))>, asset: u64)
    ensures
        forall|i: int| 0 <= i < MinerManager::staying(miners, asset, MinerAsset::Townhall).len()
            ==> (#[trigger] MinerManager::staying(miners, asset, MinerAsset::Townhall)[i]).1.0.townhall.tag != asset,
        forall|i: int| 0 <= i < miners.len() && (#[trigger] miners[i]).1.0.townhall.tag == asset
            ==> MinerManager::leaving(miners, asset, MinerAsset::Townhall).contains(miners[i].0),
        forall|i: int| 0 <= i < miners.len() && (#[trigger] miners[i]).1.0.townhall.tag != asset
            ==> MinerManager::staying(miners, asset, MinerAsset::Townhall).contains(miners[i]),
        forall|i: int| 0 <= i < MinerManager::staying(miners, asset, MinerAsset::Minerals).len()
            ==> (#[trigger] MinerManager::staying(miners, asset, MinerAsset::Minerals)[i]).1.0.resource.tag != asset,
        forall|i: int| 0 <= i < miners.len() && (#[trigger] miners[i]).1.0.resource.tag == asset
            ==> MinerManager::leaving(miners, asset, MinerAsset::Minerals).contains(miners[i].0),
        forall|i: int| 0 <= i < MinerManager::staying(miners, asset, MinerAsset::Gas).len()
            ==> (#[trigger] MinerManager::staying(miners, asset, MinerAsset::Gas)[i]).1.0.resource.tag != asset,
        forall|i: int| 0 <= i < miners.len() && (#[trigger] miners[i]).1.0.resource.tag == asset
            ==> MinerManager::leaving(miners, asset, MinerAsset::Gas).contains(miners[i].0),
    decreases miners.len(),
{
    if miners.len() > 0 {
        let rest = miners.drop_last();
        law_lost_asset_releases_its_workers(rest, asset);
        let n = miners.len() - 1;
        assert forall|i: int| 0 <= i < miners.len() && (#[trigger] miners[i]).1.0.townhall.tag == asset
            implies MinerManager::leaving(miners, asset, MinerAsset::Townhall).contains(miners[i].0) by {
            if i < n {
                assert(rest[i] == miners[i]);
                let k = choose|k: int| 0 <= k < MinerManager::leaving(rest, asset, MinerAsset::Townhall).len()
                    && MinerManager::leaving(rest, asset, MinerAsset::Townhall)[k] == rest[i].0;
                assert(MinerManager::leaving(miners, asset, MinerAsset::Townhall)[k] == miners[i].0);
            } else {
                let l = MinerManager::leaving(miners, asset, MinerAsset::Townhall);
                assert(l[l.len() - 1] == miners[i].0);
            }
        }
        assert forall|i: int| 0 <= i < miners.len() && (#[trigger] miners[i]).1.0.townhall.tag != asset
            implies MinerManager::staying(miners, asset, MinerAsset::Townhall).contains(miners[i]) by {
            if i < n {
                assert(rest[i] == miners[i]);
                let k = choose|k: int| 0 <= k < MinerManager::staying(rest, asset, MinerAsset::Townhall).len()
                    && MinerManager::staying(rest, asset, MinerAsset::Townhall)[k] == rest[i];
                assert(MinerManager::staying(miners, asset, MinerAsset::Townhall)[k] == miners[i]);
            } else {
                let st = MinerManager::staying(miners, asset, MinerAsset::Townhall);
                assert(st[st.len() - 1] == miners[i]);
            }
        }
        assert forall|i: int| 0 <= i < miners.len() && (#[trigger] miners[i]).1.0.resource.tag == asset
            implies MinerManager::leaving(miners, asset, MinerAsset::Minerals).contains(miners[i].0) by {
            if i < n {
                assert(rest[i] == miners[i]);
                let k = choose|k: int| 0 <= k < MinerManager::leaving(rest, asset, MinerAsset::Minerals).len()
                    && MinerManager::leaving(rest, asset, MinerAsset::Minerals)[k] == rest[i].0;
                assert(MinerManager::leaving(miners, asset, MinerAsset::Minerals)[k] == miners[i].0);
            } else {
                let l = MinerManager::leaving(miners, asset, MinerAsset::Minerals);
                assert(l[l.len() - 1] == miners[i].0);
            }
        }
        assert forall|i: int| 0 <= i < miners.len() && (#[trigger] miners[i]).1.0.resource.tag == asset
            implies MinerManager::leaving(miners, asset, MinerAsset::Gas).contains(miners[i].0) by {
            if i < n {
                assert(rest[i] == miners[i]);
                let k = choose|k: int| 0 <= k < MinerManager::leaving(rest, asset, MinerAsset::Gas).len()
                    && MinerManager::leaving(rest, asset, MinerAsset::Gas)[k] == rest[i].0;
                assert(MinerManager::leaving(miners, asset, MinerAsset::Gas)[k] == miners[i].0);
            } else {
                let l = MinerManager::leaving(miners, asset, MinerAsset::Gas);
                assert(l[l.len() - 1] == miners[i].0);
            }
        }
    }
}

} // verus!
