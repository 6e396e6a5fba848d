//! The bot's reactions to game events: a unit dies, a building starts or
//! finishes, the first frame comes, a worker needs a job, a building or a
//! gas needs a site and a builder. The managers change here; what is to be
//! said about it comes back as issues for the caller to show.
use crate::errors::{BuildError, BuildingTransitionError, Either};
use crate::geometry::{dist2, distance_squared, in_bounds, Point};
use crate::ids::UnitType;
use crate::keyed::{has_key, lemma_has_key_extended, without_key};
use crate::knowledge::{Knowledge, UnitKnowledge};
use crate::micro::{asset_kind, valid_job, MinerAsset, MinerAssignment, MinerManager, MinerMicroState, MiningError, ResourceSite};
use crate::siting::{expansion_at, free_geyser_from, location_point, next_status, slot_for, status_can_build, power_refusal, powered_site, refused_by_some_site, site_holds, BuildingTransition, ConstructionSite, LocationType, SitingDirector, SlotSize};
use crate::unit_types as ut;
use crate::units::{assimilator, is_assimilator, is_minerals, is_protoss_building, minerals, protoss_building, Tag, UnitSnapshot};
use vstd::prelude::*;

verus! {

/// The sites after the building at `building`'s position is finished: its
/// site moves on to finished where it can.
pub open spec fn sites_finished(m: Map<Point, crate::siting::ConstructionSite>, building: UnitSnapshot) -> Map<Point, crate::siting::ConstructionSite> {
    if m.contains_key(building.position) {
        match next_status(m[building.position].status, BuildingTransition::Finish) {
            Some(n) => m.insert(building.position, ConstructionSite { status: n, location: m[building.position].location }),
            None => m,
        }
    } else {
        m
    }
}

/// The site holding the assimilator `building` is free again for an
/// assimilator; when no site holds it, nothing changed.
pub open spec fn assimilator_site_freed(before: Map<Point, ConstructionSite>, after: Map<Point, ConstructionSite>, building: Tag) -> bool {
    ||| exists|p: Point| #[trigger] before.contains_key(p) && site_holds(before[p].status, building) && after == before.insert(p, ConstructionSite {
        status: crate::siting::BuildingStatus::Free(Some(ut::ASSIMILATOR), crate::siting::PylonPower::Depowered),
        location: before[p].location,
    })
    ||| !(exists|p: Point| #[trigger] before.contains_key(p) && site_holds(before[p].status, building)) && after == before
}

/// The site holding the building `building` is free again for a building of
/// its type, with the power it had; when no site holds it, nothing changed.
pub open spec fn building_site_freed(before: Map<Point, ConstructionSite>, after: Map<Point, ConstructionSite>, building: Tag) -> bool {
    ||| exists|p: Point| #[trigger] before.contains_key(p) && site_holds(before[p].status, building) && after == before.insert(p, ConstructionSite {
        status: crate::siting::BuildingStatus::Free(Some(building.unit_type), match before[p].status {
            crate::siting::BuildingStatus::Built(_, pw) => pw,
            crate::siting::BuildingStatus::Constructing(_, pw) => pw,
            crate::siting::BuildingStatus::Free(_, pw) => pw,
            crate::siting::BuildingStatus::Blocked(_, pw) => pw,
        }),
        location: before[p].location,
    })
    ||| !(exists|p: Point| #[trigger] before.contains_key(p) && site_holds(before[p].status, building)) && after == before
}

/// The sites after a building is started: an assimilator takes its geyser's
/// site as built; another Protoss building takes its site as under
/// construction where the site allows it.
pub open spec fn sites_started(m: Map<Point, crate::siting::ConstructionSite>, building: UnitSnapshot) -> Map<Point, crate::siting::ConstructionSite> {
    let tag = Tag { tag: building.tag, unit_type: building.unit_type };
    if building.unit_type == ut::ASSIMILATOR || building.unit_type == ut::ASSIMILATOR_RICH {
        if m.contains_key(building.position) {
            m.insert(building.position, ConstructionSite {
                status: crate::siting::BuildingStatus::Built(tag, crate::siting::PylonPower::Depowered),
                location: m[building.position].location,
            })
        } else {
            m
        }
    } else if protoss_building(tag.unit_type) && !assimilator(tag.unit_type) && m.contains_key(building.position) {
        match next_status(m[building.position].status, BuildingTransition::Construct(tag)) {
            Some(n) => m.insert(building.position, ConstructionSite { status: n, location: m[building.position].location }),
            None => m,
        }
    } else {
        m
    }
}

/// The sites after the starting nexus is marked on the site under it, if
/// there is one.
pub open spec fn sites_with_initial_nexus(m: Map<Point, crate::siting::ConstructionSite>, nexus: UnitSnapshot) -> Map<Point, crate::siting::ConstructionSite> {
    if m.contains_key(nexus.position) {
        m.insert(nexus.position, ConstructionSite {
            status: crate::siting::BuildingStatus::Built(Tag { tag: nexus.tag, unit_type: nexus.unit_type }, crate::siting::PylonPower::Depowered),
            location: m[nexus.position].location,
        })
    } else {
        m
    }
}

/// The asset table after a townhall on an expansion location of `sites` is
/// filed; other units, and a townhall elsewhere, leave it as it is.
pub open spec fn townhall_filed(assets: Seq<(u64, ResourceSite)>, u: UnitSnapshot, sites: Map<Point, ConstructionSite>) -> Seq<(u64, ResourceSite)> {
    if u.is_townhall && expansion_at(sites, u.position) {
        MinerManager::filed(assets, ResourceSite { resource: asset_kind(u), location: u.position, tag: u.tag })
    } else {
        assets
    }
}

/// The asset table after a mineral field or geyser is filed; other units
/// leave it as it is.
pub open spec fn harvest_filed(assets: Seq<(u64, ResourceSite)>, u: UnitSnapshot) -> Seq<(u64, ResourceSite)> {
    if u.is_mineral || u.is_geyser {
        MinerManager::filed(assets, ResourceSite { resource: asset_kind(u), location: u.position, tag: u.tag })
    } else {
        assets
    }
}

/// The asset table after each of the units is filed in order (see
/// `harvest_filed`).
pub open spec fn harvest_filed_all(assets: Seq<(u64, ResourceSite)>, units: Seq<UnitSnapshot>) -> Seq<(u64, ResourceSite)>
    decreases units.len(),
{
    if units.len() == 0 {
        assets
    } else {
        harvest_filed(harvest_filed_all(assets, units.drop_last()), units.last())
    }
}

/// The refusals of the units of `units` that cannot be mined, in order.
pub open spec fn mining_refusals(units: Seq<UnitSnapshot>) -> Seq<MiningError>
    decreases units.len(),
{
    if units.len() == 0 {
        Seq::empty()
    } else {
        let prev = mining_refusals(units.drop_last());
        let u = units.last();
        if u.is_mineral || u.is_geyser {
            prev
        } else {
            prev.push(MiningError::NotHarvestable(Tag { tag: u.tag, unit_type: u.unit_type }))
        }
    }
}

/// A `MineralNotMined` issue for each refusal of `mining_refusals`.
pub open spec fn minerals_not_mined(units: Seq<UnitSnapshot>) -> Seq<BotIssue> {
    mining_refusals(units).map_values(|e: MiningError| BotIssue::MineralNotMined(e))
}

/// An `InitialMinerals` issue for each refusal of `mining_refusals`.
pub open spec fn initial_minerals_refused(units: Seq<UnitSnapshot>) -> Seq<BotIssue> {
    mining_refusals(units).map_values(|e: MiningError| BotIssue::InitialMinerals(e))
}

/// What is reported when the site of the finished `building` refuses to
/// finish: nothing when it finishes.
pub open spec fn finish_issues(m: Map<Point, ConstructionSite>, building: UnitSnapshot) -> Seq<BotIssue> {
    if !m.contains_key(building.position) {
        seq![BotIssue::FinishingBuilding(BuildError::NoConstructionSiteForFinishedBuilding(building.unit_type))]
    } else {
        match next_status(m[building.position].status, BuildingTransition::Finish) {
            Some(_) => Seq::empty(),
            None => seq![BotIssue::FinishingBuilding(BuildError::CantTransitionBuildingLocation(
                BuildingTransitionError::InvalidTransition { from: m[building.position].status, change: BuildingTransition::Finish },
            ))],
        }
    }
}

/// Whether the started `building` finds no site to take: an assimilator
/// without a site at its position, any other building unless it is a
/// Protoss building whose site there may start it.
pub open spec fn start_refused(m: Map<Point, ConstructionSite>, building: UnitSnapshot) -> bool {
    let tag = Tag { tag: building.tag, unit_type: building.unit_type };
    if assimilator(building.unit_type) {
        !m.contains_key(building.position)
    } else {
        !protoss_building(building.unit_type) || !m.contains_key(building.position)
            || next_status(m[building.position].status, BuildingTransition::Construct(tag)) is None
    }
}

/// The workers that `issues` report sent back to work, in order.
pub open spec fn sent_back(issues: Seq<BotIssue>) -> Seq<u64>
    decreases issues.len(),
{
    if issues.len() == 0 {
        Seq::empty()
    } else {
        let prev = sent_back(issues.drop_last());
        match issues.last() {
            BotIssue::BackToWork(w) => prev.push(w),
            _ => prev,
        }
    }
}

/// The position of the nearest worker to `target` (see `is_nearest`).
pub open spec fn nearest_worker(workers: Seq<(u64, Point)>, target: Point) -> int {
    choose|k: int| is_nearest(workers, target, k)
}

/// At most one position is the nearest worker's.
pub proof fn lemma_nearest_unique(workers: Seq<(u64, Point)>, target: Point, a: int, b: int)
    requires
        is_nearest(workers, target, a),
        is_nearest(workers, target, b),
    ensures
        a == b,
{
    if a < b {
        assert(dist2(workers[b].1, target) < dist2(workers[a].1, target));
        assert(dist2(workers[a].1, target) <= dist2(workers[b].1, target));
    } else if b < a {
        assert(dist2(workers[a].1, target) < dist2(workers[b].1, target));
        assert(dist2(workers[b].1, target) <= dist2(workers[a].1, target));
    }
}

/// What asking for a gas at `near` gives, from the sites (as a map and in
/// the order kept) and the workers: refused off an expansion location, then
/// when no site within reach could take a gas building, then without
/// workers; the first such site, if it is a geyser, goes to the worker
/// nearest it; a site that is no geyser cannot take it.
pub open spec fn gas_outcome(m: Map<Point, ConstructionSite>, sites: Seq<ConstructionSite>, near: Point, workers: Seq<(u64, Point)>) -> Result<(u64, u64), BuildError> {
    if !expansion_at(m, near) {
        Err(BuildError::NoBuildingLocationHere(near))
    } else {
        match free_geyser_from(sites, near, ACCEPTABLE_GAS_DISTANCE as int, 0) {
            None => Err(BuildError::NoPlacementLocations),
            Some(site) => if workers.len() == 0 {
                Err(BuildError::NoTrainer)
            } else {
                match site.location {
                    LocationType::OnGeyser(geyser, p) => Ok((workers[nearest_worker(workers, p)].0, geyser)),
                    LocationType::AtPoint(_, _) => Err(BuildError::CantPlace(location_point(site.location), ut::ASSIMILATOR)),
                }
            },
        }
    }
}

/// What asking for a gas at the townhalls from position `from` on gives:
/// the answer at the first where a gas is taken, else `NoPlacementLocations`.
pub open spec fn first_gas_from(
    m: Map<Point, ConstructionSite>,
    sites: Seq<ConstructionSite>,
    townhalls: Seq<Point>,
    workers: Seq<(u64, Point)>,
    from: int,
) -> Result<(u64, u64), BuildError>
    decreases townhalls.len() - from,
{
    if from < 0 || from >= townhalls.len() {
        Err(BuildError::NoPlacementLocations)
    } else {
        match gas_outcome(m, sites, townhalls[from], workers) {
            Ok(x) => Ok(x),
            Err(_) => first_gas_from(m, sites, townhalls, workers, from + 1),
        }
    }
}

/// Whether a gas is sure to be taken at `near`: it is an expansion location,
/// a geyser is free within reach of it, every free site within reach is a
/// geyser, and there is a worker.
pub open spec fn gas_takeable(m: Map<Point, ConstructionSite>, near: Point, workers: Seq<(u64, Point)>) -> bool {
    let reach = ACCEPTABLE_GAS_DISTANCE * ACCEPTABLE_GAS_DISTANCE;
    &&& expansion_at(m, near)
    &&& exists|p: Point| #[trigger] m.contains_key(p) && dist2(p, near) <= reach && status_can_build(m[p].status, ut::ASSIMILATOR)
    &&& forall|p: Point| #[trigger] m.contains_key(p) && dist2(p, near) <= reach && status_can_build(m[p].status, ut::ASSIMILATOR)
        ==> (m[p].location matches LocationType::OnGeyser(_, _))
    &&& workers.len() > 0
}

/// Whether no gas can be taken at `near`: it is no expansion location, no
/// site within reach of it could take a gas building, or there is no worker.
pub open spec fn gas_untakeable(m: Map<Point, ConstructionSite>, near: Point, workers: Seq<(u64, Point)>) -> bool {
    let reach = ACCEPTABLE_GAS_DISTANCE * ACCEPTABLE_GAS_DISTANCE;
    ||| !expansion_at(m, near)
    ||| !(exists|p: Point| #[trigger] m.contains_key(p) && dist2(p, near) <= reach && status_can_build(m[p].status, ut::ASSIMILATOR))
    ||| workers.len() == 0
}

/// A gas taken at `near`: the geyser's site is within reach of it, and the
/// builder is the worker nearest that site.
pub open spec fn gas_taken_at(m: Map<Point, ConstructionSite>, near: Point, workers: Seq<(u64, Point)>, builder: u64, geyser: u64) -> bool {
    exists|p: Point| #[trigger] m.contains_key(p)
        && m[p].location == LocationType::OnGeyser(geyser, p)
        && dist2(p, near) <= ACCEPTABLE_GAS_DISTANCE * ACCEPTABLE_GAS_DISTANCE
        && exists|k: int| #[trigger] is_nearest(workers, p, k) && workers[k].0 == builder
}

/// Whether an upgrade may be researched now: refused as already researching
/// when it is done or in progress, then without an idle ready researcher,
/// then when it cannot be afforded.
pub fn research_decision(done: bool, in_progress: bool, has_researcher: bool, affordable: bool) -> (r: Result<(), BuildError>)
    ensures
        r == if done || in_progress {
            Err::<(), BuildError>(BuildError::AlreadyResearching)
        } else if !has_researcher {
            Err::<(), BuildError>(BuildError::NoTrainer)
        } else if !affordable {
            Err::<(), BuildError>(BuildError::CantAfford)
        } else {
            Ok::<(), BuildError>(())
        },
{
    if done || in_progress {
        Err(BuildError::AlreadyResearching)
    } else if !has_researcher {
        Err(BuildError::NoTrainer)
    } else if !affordable {
        Err(BuildError::CantAfford)
    } else {
        Ok(())
    }
}

/// How far from a base, in fixed-point steps (twelve map units), a geyser
/// still counts as the base's.
pub const ACCEPTABLE_GAS_DISTANCE: i32 = 12 * 256;

/// Something the bot reports about its own state.
#[derive(Debug, PartialEq, Eq)]
pub enum BotIssue {
    /// A worker found no job; the refusal and the saturation at the time.
    CantEmployWorker(MiningError, (usize, usize, usize, usize)),
    /// A destroyed assimilator was not on any site.
    AssimilatorNotFound,
    /// A destroyed structure was not on any site.
    DestroyedStructureNotSited(BuildError),
    /// A site refused a change of power.
    PowerChange(BuildingTransitionError),
    /// A finished building's site refused to finish.
    FinishingBuilding(BuildError),
    /// A finished nexus could not be mined from.
    NexusNotMined(BuildError),
    /// A mineral field by a finished nexus could not be mined.
    MineralNotMined(MiningError),
    /// A finished assimilator could not be mined.
    CantMine(MiningError),
    /// A started assimilator had no site.
    AssimilatorNowhere(BuildError),
    /// A started building had no site.
    NoSlotForBuilding(BuildError),
    /// A mineral field at the start could not be mined.
    InitialMinerals(MiningError),
    /// The first nexus had no site.
    NoInitialNexus(BuildError),
    /// A worker was sent back to work.
    BackToWork(u64),
    /// A mining worker was taken to build.
    TookBuilder(u64, UnitType),
}

/// The managers the bot keeps, and the issues reported since they were last
/// collected.
pub struct BotCore {
    pub knowledge: Knowledge,
    pub siting_director: SitingDirector,
    pub mining_manager: MinerManager,
    pub issues: Vec<BotIssue>,
}

/// Every issue from position `from` on is a worker that found no job.
pub open spec fn only_unemployment_from(issues: Seq<BotIssue>, from: int) -> bool {
    forall|k: int| from <= k < issues.len() ==> (#[trigger] issues[k] matches BotIssue::CantEmployWorker(_, _))
}

/// From position `from` on, some issue reports that no job was to be had at
/// all: no townhall, or no asset with room.
pub open spec fn no_job_reported_from(issues: Seq<BotIssue>, from: int) -> bool {
    exists|k: int| from <= k < issues.len() && ((#[trigger] issues[k] matches BotIssue::CantEmployWorker(MiningError::NoTownhalls, _))
        || (issues[k] matches BotIssue::CantEmployWorker(MiningError::NoResources, _)))
}

/// Every worker of `workers` has a job among `miners`, unless some issue from
/// position `from` on reports that no job was to be had.
pub open spec fn employed_or_refused(workers: Seq<u64>, miners: Seq<(u64, (MinerAssignment, MinerMicroState))>, issues: Seq<BotIssue>, from: int) -> bool {
    forall|j: int| 0 <= j < workers.len() ==> has_key(miners, #[trigger] workers[j]) || no_job_reported_from(issues, from)
}

/// `after` keeps every entry of `before` in place, and may add more.
pub open spec fn extends<T>(before: Seq<T>, after: Seq<T>) -> bool {
    &&& before.len() <= after.len()
    &&& forall|i: int| 0 <= i < before.len() ==> #[trigger] after[i] == before[i]
}

/// Whether `k` is the position of a nearest worker to `target`: none is
/// nearer, and none before it is as near.
pub open spec fn is_nearest(workers: Seq<(u64, Point)>, target: Point, k: int) -> bool {
    &&& 0 <= k < workers.len()
    &&& forall|j: int| 0 <= j < workers.len() ==> dist2(workers[k].1, target) <= #[trigger] dist2(workers[j].1, target)
    &&& forall|j: int| 0 <= j < k ==> dist2(workers[k].1, target) < #[trigger] dist2(workers[j].1, target)
}

/// `builder` is the worker at a nearest position to `target`.
pub open spec fn picked_nearest(workers: Seq<(u64, Point)>, target: Point, builder: u64) -> bool {
    exists|k: int| #[trigger] is_nearest(workers, target, k) && workers[k].0 == builder
}

/// The position of the nearest worker to `target`, the first of several at
/// the same distance; `None` without workers.
pub fn closest_worker(workers: &Vec<(u64, Point)>, target: Point) -> (r: Option<usize>)
    ensures
        r is None <==> workers@.len() == 0,
        r matches Some(k) ==> is_nearest(workers@, target, k as int),
{
    if workers.len() == 0 {
        return None;
    }
    let mut best: usize = 0;
    let mut best_d = distance_squared(&workers[0].1, &target);
    let mut i: usize = 1;
    while i < workers.len()
        invariant
            1 <= i <= workers@.len(),
            best < i,
            best_d == dist2(workers@[best as int].1, target),
            forall|j: int| 0 <= j < i ==> dist2(workers@[best as int].1, target) <= #[trigger] dist2(workers@[j].1, target),
            forall|j: int| 0 <= j < best ==> dist2(workers@[best as int].1, target) < #[trigger] dist2(workers@[j].1, target),
        decreases workers@.len() - i,
    {
        let d = distance_squared(&workers[i].1, &target);
        if d < best_d {
            best = i;
            best_d = d;
        }
        i = i + 1;
    }
    Some(best)
}

impl BotCore {
    /// Every manager is well formed.
    pub open spec fn wf(&self) -> bool {
        &&& self.knowledge.wf()
        &&& self.siting_director.wf()
        &&& self.mining_manager.wf()
    }

    /// Gives a worker a job; when none can be had, reports why together with
    /// the tally of mineral fields, gas buildings and their workers.
    pub fn back_to_work(&mut self, worker: u64)
        requires
            old(self).wf(),
        ensures
            final(self).wf(),
            final(self).knowledge == old(self).knowledge,
            final(self).siting_director == old(self).siting_director,
            final(self).mining_manager.assets_view() == old(self).mining_manager.assets_view(),
            final(self).mining_manager.priority_view() == old(self).mining_manager.priority_view(),
            final(self).issues@.len() == old(self).issues@.len() || final(self).issues@.len() == old(self).issues@.len() + 1,
            forall|k: int| 0 <= k < old(self).issues@.len() ==> #[trigger] final(self).issues@[k] == old(self).issues@[k],
            final(self).issues@.len() == old(self).issues@.len() + 1 ==> (final(self).issues@.last() matches BotIssue::CantEmployWorker(_, _)),
            match old(self).mining_manager.assign_answer(worker) {
                Ok(()) => MinerManager::employed(&old(self).mining_manager, &final(self).mining_manager, worker)
                    && final(self).issues == old(self).issues,
                Err(e) => MinerManager::unchanged(&old(self).mining_manager, &final(self).mining_manager)
                    && final(self).issues@ == old(self).issues@.push(BotIssue::CantEmployWorker(e, old(self).mining_manager.tally())),
            },
    {
        match self.mining_manager.assign_miner(worker) {
            Ok(()) => {},
            Err(e) => {
                let sat = self.mining_manager.report();
                self.issues.push(BotIssue::CantEmployWorker(e, sat));
            },
        }
    }

    /// Sends each worker back to work, in order.
    fn all_back_to_work(&mut self, workers: &Vec<u64>)
        requires
            old(self).wf(),
        ensures
            final(self).wf(),
            final(self).knowledge == old(self).knowledge,
            final(self).siting_director == old(self).siting_director,
            final(self).mining_manager.assets_view() == old(self).mining_manager.assets_view(),
            final(self).mining_manager.priority_view() == old(self).mining_manager.priority_view(),
            extends(old(self).mining_manager.miners_view(), final(self).mining_manager.miners_view()),
            extends(old(self).issues@, final(self).issues@),
            only_unemployment_from(final(self).issues@, old(self).issues@.len() as int),
            employed_or_refused(workers@, final(self).mining_manager.miners_view(), final(self).issues@, old(self).issues@.len() as int),
    {
        let ghost from = old(self).issues@.len() as int;
        let mut i: usize = 0;
        while i < workers.len()
            invariant
                i <= workers@.len(),
                from == old(self).issues@.len(),
                self.wf(),
                self.knowledge == old(self).knowledge,
                self.siting_director == old(self).siting_director,
                self.mining_manager.assets_view() == old(self).mining_manager.assets_view(),
                self.mining_manager.priority_view() == old(self).mining_manager.priority_view(),
                extends(old(self).mining_manager.miners_view(), self.mining_manager.miners_view()),
                extends(old(self).issues@, self.issues@),
                only_unemployment_from(self.issues@, from),
                employed_or_refused(workers@.subrange(0, i as int), self.mining_manager.miners_view(), self.issues@, from),
            decreases workers@.len() - i,
        {
            let ghost before = *self;
            let w = workers[i];
            self.back_to_work(w);
            proof {
                let mb = before.mining_manager.miners_view();
                let ma = self.mining_manager.miners_view();
                assert(extends(mb, ma)) by {
                    match before.mining_manager.assign_answer(w) {
                        Ok(()) => {
                            let job = choose|job: MinerAssignment| #[trigger] valid_job(before.mining_manager.assets_view(),
                                before.mining_manager.counts_view(), before.mining_manager.priority_view(), job)
                                && ma == mb.push((w, (job, MinerMicroState::Idle)))
                                && self.mining_manager.counts_view() == MinerManager::bumped(before.mining_manager.counts_view(), job.resource.tag)
                                && self.mining_manager.assets_view() == before.mining_manager.assets_view()
                                && self.mining_manager.priority_view() == before.mining_manager.priority_view();
                            assert(ma[mb.len() as int].0 == w);
                        },
                        Err(_) => {},
                    }
                }
                let done = workers@.subrange(0, i as int + 1);
                assert forall|j: int| 0 <= j < done.len() implies has_key(ma, #[trigger] done[j]) || no_job_reported_from(self.issues@, from) by {
                    if j < i {
                        assert(done[j] == workers@.subrange(0, i as int)[j]);
                        if has_key(mb, done[j]) {
                            lemma_has_key_extended(mb, ma, done[j]);
                        } else {
                            let k = choose|k: int| from <= k < before.issues@.len() && ((#[trigger] before.issues@[k] matches BotIssue::CantEmployWorker(MiningError::NoTownhalls, _))
                                || (before.issues@[k] matches BotIssue::CantEmployWorker(MiningError::NoResources, _)));
                            assert(self.issues@[k] == before.issues@[k]);
                        }
                    } else {
                        assert(done[j] == w);
                        match before.mining_manager.assign_answer(w) {
                            Ok(()) => {
                                assert(ma[mb.len() as int].0 == w);
                            },
                            Err(e) => {
                                if has_key(mb, w) {
                                    lemma_has_key_extended(mb, ma, w);
                                } else {
                                    let k = before.issues@.len() as int;
                                    assert(self.issues@[k] == BotIssue::CantEmployWorker(e, before.mining_manager.tally()));
                                }
                            },
                        }
                    }
                }
            }
            i = i + 1;
        }
        proof {
            assert(workers@.subrange(0, workers@.len() as int) =~= workers@);
        }
    }

    /// Reacts to a unit's death. A unit never seen changes nothing. Otherwise
    /// it is moved to the dead; a lost assimilator frees its site and its
    /// gas, a lost structure frees its site (a pylon or phasing prism also
    /// takes its power away, a nexus its base), a lost mineral field is no
    /// longer mined, and a lost probe leaves its job. Workers that lost
    /// their job are sent back to work.
    pub fn unit_destroyed(&mut self, tag: u64)
        requires
            old(self).wf(),
        ensures
            final(self).wf(),
            !old(self).knowledge.seen().dom().contains(tag) ==> *final(self) == *old(self),
            extends(old(self).issues@, final(self).issues@),
            old(self).knowledge.seen().dom().contains(tag) ==> ({
                let k = old(self).knowledge.seen()[tag];
                let t = k.type_id;
                let unit = Tag { tag, unit_type: t };
                let from = old(self).issues@.len() as int;
                let held = exists|p: Point| #[trigger] old(self).siting_director@.contains_key(p)
                    && site_holds(old(self).siting_director@[p].status, unit);
                &&& final(self).knowledge.seen() == old(self).knowledge.seen().remove(tag)
                &&& final(self).knowledge.dead() == old(self).knowledge.dead().insert(tag, k)
                &&& assimilator(t) ==> {
                    &&& assimilator_site_freed(old(self).siting_director@, final(self).siting_director@, unit)
                    &&& final(self).mining_manager.assets_view() == without_key(old(self).mining_manager.assets_view(), tag)
                    &&& forall|j: int| from <= j < final(self).issues@.len() ==> (#[trigger] final(self).issues@[j] == BotIssue::AssimilatorNotFound
                        || (final(self).issues@[j] matches BotIssue::CantEmployWorker(_, _)))
                    &&& (exists|j: int| from <= j < final(self).issues@.len() && #[trigger] final(self).issues@[j] == BotIssue::AssimilatorNotFound) <==> !held
                    &&& employed_or_refused(MinerManager::leaving(old(self).mining_manager.miners_view(), tag, MinerAsset::Gas),
                        final(self).mining_manager.miners_view(), final(self).issues@, from)
                }
                &&& (protoss_building(t) && !assimilator(t)) ==> {
                    &&& forall|j: int| from <= j < final(self).issues@.len() ==> ((#[trigger] final(self).issues@[j] matches BotIssue::DestroyedStructureNotSited(_))
                        || (final(self).issues@[j] matches BotIssue::PowerChange(_)) || (final(self).issues@[j] matches BotIssue::CantEmployWorker(_, _)))
                    &&& (exists|j: int| from <= j < final(self).issues@.len() && (#[trigger] final(self).issues@[j] matches BotIssue::DestroyedStructureNotSited(_))) <==> !held
                    &&& (t != ut::PYLON && t != ut::WARP_PRISM_PHASING) ==> building_site_freed(old(self).siting_director@, final(self).siting_director@, unit)
                    &&& (t == ut::PYLON || t == ut::WARP_PRISM_PHASING) ==> exists|freed: Map<Point, ConstructionSite>|
                        #[trigger] building_site_freed(old(self).siting_director@, freed, unit)
                        && final(self).siting_director@.dom() == freed.dom()
                        && forall|p: Point| #[trigger] freed.contains_key(p) ==> final(self).siting_director@[p]
                            == powered_site(freed[p], t, k.last_position, false)
                    &&& t == ut::NEXUS ==> final(self).mining_manager.assets_view() == without_key(old(self).mining_manager.assets_view(), tag)
                        && employed_or_refused(MinerManager::leaving(old(self).mining_manager.miners_view(), tag, MinerAsset::Townhall),
                            final(self).mining_manager.miners_view(), final(self).issues@, from)
                    &&& t != ut::NEXUS ==> final(self).mining_manager == old(self).mining_manager
                }
                &&& (!assimilator(t) && !protoss_building(t) && minerals(t)) ==> {
                    &&& final(self).siting_director == old(self).siting_director
                    &&& final(self).mining_manager.assets_view() == without_key(old(self).mining_manager.assets_view(), tag)
                    &&& only_unemployment_from(final(self).issues@, from)
                    &&& employed_or_refused(MinerManager::leaving(old(self).mining_manager.miners_view(), tag, MinerAsset::Minerals),
                        final(self).mining_manager.miners_view(), final(self).issues@, from)
                }
                &&& !(assimilator(t) || protoss_building(t) || minerals(t)) ==> {
                    &&& final(self).siting_director == old(self).siting_director
                    &&& final(self).issues == old(self).issues
                    &&& final(self).mining_manager.assets_view() == old(self).mining_manager.assets_view()
                    &&& t == ut::PROBE ==> !has_key(final(self).mining_manager.miners_view(), tag)
                    &&& t != ut::PROBE ==> final(self).mining_manager == old(self).mining_manager
                }
            }),
    {
        let knowledge = self.knowledge.unit_destroyed(tag);
        let unit_details: UnitKnowledge = match knowledge {
            Ok(k) => k,
            Err(_) => { return; },
        };
        let unit_tag = Tag { tag, unit_type: unit_details.type_id };
        let ghost from = old(self).issues@.len() as int;
        if is_assimilator(unit_details.type_id) {
            if self.siting_director.lose_assimilator(unit_tag).is_err() {
                self.issues.push(BotIssue::AssimilatorNotFound);
            }
            let ghost mid = self.issues@;
            let unemployed = self.mining_manager.remove_resource(unit_tag.tag, false);
            self.all_back_to_work(&unemployed);
            proof {
                assert forall|j: int| from <= j < self.issues@.len() implies (#[trigger] self.issues@[j] == BotIssue::AssimilatorNotFound
                    || (self.issues@[j] matches BotIssue::CantEmployWorker(_, _))) by {
                    if j < mid.len() {
                        assert(self.issues@[j] == mid[j]);
                    }
                }
                if (exists|j: int| from <= j < self.issues@.len() && #[trigger] self.issues@[j] == BotIssue::AssimilatorNotFound) {
                    let j = choose|j: int| from <= j < self.issues@.len() && #[trigger] self.issues@[j] == BotIssue::AssimilatorNotFound;
                    if j >= mid.len() {
                        assert(self.issues@[j] matches BotIssue::CantEmployWorker(_, _));
                    }
                    assert(mid.len() > from);
                }
                if mid.len() > from {
                    assert(self.issues@[from] == mid[from]);
                }
            }
        } else if is_protoss_building(&unit_details.type_id) {
            if let Err(e) = self.siting_director.find_and_destroy_building(&unit_tag) {
                self.issues.push(BotIssue::DestroyedStructureNotSited(e));
            }
            let ghost freed = self.siting_director@;
            let ghost mid = self.issues@;
            if unit_details.type_id == ut::PYLON || unit_details.type_id == ut::WARP_PRISM_PHASING {
                self.update_building_power(unit_details.type_id, unit_details.last_position, false);
            }
            let ghost powered = self.issues@;
            if unit_details.type_id == ut::NEXUS {
                let unemployed = self.mining_manager.remove_townhall(unit_tag.tag);
                self.all_back_to_work(&unemployed);
            }
            proof {
                assert(building_site_freed(old(self).siting_director@, freed, unit_tag));
                assert forall|j: int| from <= j < self.issues@.len() implies ((#[trigger] self.issues@[j] matches BotIssue::DestroyedStructureNotSited(_))
                    || (self.issues@[j] matches BotIssue::PowerChange(_)) || (self.issues@[j] matches BotIssue::CantEmployWorker(_, _))) by {
                    if j < mid.len() {
                        assert(self.issues@[j] == mid[j]);
                    } else if j < powered.len() {
                        assert(self.issues@[j] == powered[j]);
                    }
                }
                if (exists|j: int| from <= j < self.issues@.len() && (#[trigger] self.issues@[j] matches BotIssue::DestroyedStructureNotSited(_))) {
                    let j = choose|j: int| from <= j < self.issues@.len() && (#[trigger] self.issues@[j] matches BotIssue::DestroyedStructureNotSited(_));
                    if j >= powered.len() {
                        assert(self.issues@[j] matches BotIssue::CantEmployWorker(_, _));
                    } else if j >= mid.len() {
                        assert(self.issues@[j] == powered[j]);
                        assert(powered[j] matches BotIssue::PowerChange(_));
                    }
                    assert(mid.len() > from);
                }
                if mid.len() > from {
                    assert(self.issues@[from] == mid[from]);
                }
            }
        } else if is_minerals(unit_details.type_id) {
            let unemployed = self.mining_manager.remove_resource(unit_tag.tag, true);
            self.all_back_to_work(&unemployed);
        } else if unit_tag.unit_type == ut::PROBE && self.mining_manager.remove_miner(unit_tag.tag) {
        }
    }

    /// Turns the power of the sites in reach of a pylon or warp prism on or
    /// off, reporting each site that refused.
    pub fn update_building_power(&mut self, unit_change: UnitType, power_point: Point, turned_on: bool)
        requires
            old(self).wf(),
        ensures
            final(self).wf(),
            final(self).knowledge == old(self).knowledge,
            final(self).mining_manager == old(self).mining_manager,
            final(self).siting_director@.dom() == old(self).siting_director@.dom(),
            forall|p: Point| #[trigger] old(self).siting_director@.contains_key(p) ==> final(self).siting_director@[p]
                == powered_site(old(self).siting_director@[p], unit_change, power_point, turned_on),
            extends(old(self).issues@, final(self).issues@),
            forall|j: int| old(self).issues@.len() <= j < final(self).issues@.len() ==> (#[trigger] final(self).issues@[j]
                matches BotIssue::PowerChange(e) && refused_by_some_site(old(self).siting_director@, e, unit_change, power_point, turned_on)),
            forall|p: Point| #[trigger] old(self).siting_director@.contains_key(p)
                && power_refusal(old(self).siting_director@[p], unit_change, power_point, turned_on) is Some
                ==> final(self).issues@.contains(BotIssue::PowerChange(power_refusal(old(self).siting_director@[p], unit_change, power_point, turned_on)->0)),
    {
        let errors = self.siting_director.update_building_power(unit_change, power_point, turned_on);
        let ghost powered = self.siting_director@;
        let ghost from = old(self).issues@.len() as int;
        let mut i: usize = 0;
        while i < errors.len()
            invariant
                i <= errors@.len(),
                from == old(self).issues@.len(),
                self.wf(),
                self.knowledge == old(self).knowledge,
                self.mining_manager == old(self).mining_manager,
                self.siting_director@ == powered,
                powered.dom() == old(self).siting_director@.dom(),
                forall|p: Point| #[trigger] old(self).siting_director@.contains_key(p) ==> powered[p]
                    == powered_site(old(self).siting_director@[p], unit_change, power_point, turned_on),
                extends(old(self).issues@, self.issues@),
                self.issues@.len() == from + i,
                forall|j: int| 0 <= j < i ==> #[trigger] self.issues@[from + j] == BotIssue::PowerChange(errors@[j]),
            decreases errors@.len() - i,
        {
            self.issues.push(BotIssue::PowerChange(errors[i]));
            i = i + 1;
        }
        proof {
            let m = old(self).siting_director@;
            assert forall|j: int| from <= j < self.issues@.len() implies (#[trigger] self.issues@[j]
                matches BotIssue::PowerChange(e) && refused_by_some_site(m, e, unit_change, power_point, turned_on)) by {
                assert(self.issues@[from + (j - from)] == BotIssue::PowerChange(errors@[j - from]));
            }
            assert forall|p: Point| #[trigger] m.contains_key(p) && power_refusal(m[p], unit_change, power_point, turned_on) is Some
                implies self.issues@.contains(BotIssue::PowerChange(power_refusal(m[p], unit_change, power_point, turned_on)->0)) by {
                let x = power_refusal(m[p], unit_change, power_point, turned_on)->0;
                assert(errors@.contains(x));
                let j = choose|j: int| 0 <= j < errors@.len() && errors@[j] == x;
                assert(self.issues@[from + j] == BotIssue::PowerChange(errors@[j]));
            }
        }
    }

    /// Starts mining from a finished nexus. A unit that is not a townhall is
    /// refused, and so is a townhall away from every expansion location, with
    /// `NoBuildingLocationHere` at its position.
    pub fn new_base_finished(&mut self, nexus: &UnitSnapshot) -> (r: Result<(), BuildError>)
        requires
            old(self).wf(),
            in_bounds(nexus.position),
        ensures
            final(self).wf(),
            final(self).knowledge == old(self).knowledge,
            final(self).siting_director == old(self).siting_director,
            final(self).issues == old(self).issues,
            r is Ok <==> nexus.is_townhall && expansion_at(old(self).siting_director@, nexus.position),
            !nexus.is_townhall ==> (r matches Err(BuildError::InvalidUnit(_))),
            nexus.is_townhall && !expansion_at(old(self).siting_director@, nexus.position)
                ==> r == Err::<(), BuildError>(BuildError::NoBuildingLocationHere(nexus.position)),
            final(self).mining_manager.assets_view() == townhall_filed(old(self).mining_manager.assets_view(), *nexus, old(self).siting_director@),
            final(self).mining_manager.miners_view() == old(self).mining_manager.miners_view(),
            final(self).mining_manager.counts_view() == old(self).mining_manager.counts_view(),
            final(self).mining_manager.priority_view() == old(self).mining_manager.priority_view(),
    {
        if nexus.is_townhall && !self.siting_director.is_expansion_location(nexus.position) {
            return Err(BuildError::NoBuildingLocationHere(nexus.position));
        }
        match self.mining_manager.add_townhall(nexus) {
            Ok(()) => Ok(()),
            Err(e) => {
                match e {
                    MiningError::NotTownhall(_) => Err(BuildError::InvalidUnit(String::from_str("not a townhall"))),
                    _ => Err(BuildError::InvalidUnit(String::from_str("new error from finishing a base"))),
                }
            },
        }
    }

    /// Reacts to a finished building: its site is finished; a nexus starts
    /// a base with the mineral fields by it; a pylon powers the sites in its
    /// reach; an assimilator is mined.
    pub fn complete_construction(&mut self, building: &UnitSnapshot, nearby_minerals: &Vec<UnitSnapshot>)
        requires
            old(self).wf(),
            in_bounds(building.position),
            forall|k: int| 0 <= k < nearby_minerals@.len() ==> in_bounds(#[trigger] nearby_minerals@[k].position),
        ensures
            final(self).wf(),
            final(self).knowledge == old(self).knowledge,
            final(self).mining_manager.miners_view() == old(self).mining_manager.miners_view(),
            final(self).mining_manager.counts_view() == old(self).mining_manager.counts_view(),
            final(self).mining_manager.priority_view() == old(self).mining_manager.priority_view(),
            building.unit_type == ut::NEXUS ==> final(self).mining_manager.assets_view()
                == harvest_filed_all(townhall_filed(old(self).mining_manager.assets_view(), *building, old(self).siting_director@), nearby_minerals@),
            assimilator(building.unit_type) ==> final(self).mining_manager.assets_view()
                == harvest_filed(old(self).mining_manager.assets_view(), *building),
            building.unit_type != ut::NEXUS && !assimilator(building.unit_type)
                ==> final(self).mining_manager.assets_view() == old(self).mining_manager.assets_view(),
            building.unit_type != ut::PYLON ==> final(self).siting_director@ == sites_finished(old(self).siting_director@, *building),
            building.unit_type == ut::PYLON ==> final(self).siting_director@.dom() == sites_finished(old(self).siting_director@, *building).dom()
                && forall|p: Point| #[trigger] final(self).siting_director@.contains_key(p) ==> final(self).siting_director@[p]
                    == powered_site(sites_finished(old(self).siting_director@, *building)[p], ut::PYLON, building.position, true),
            ({
                let fin = old(self).issues@ + finish_issues(old(self).siting_director@, *building);
                let finished = sites_finished(old(self).siting_director@, *building);
                let after = final(self).issues@;
                &&& building.unit_type == ut::NEXUS ==> {
                    let skip: int = if building.is_townhall && expansion_at(old(self).siting_director@, building.position) { 0 } else { 1 };
                    &&& after.len() == fin.len() + skip + minerals_not_mined(nearby_minerals@).len()
                    &&& after.subrange(0, fin.len() as int) == fin
                    &&& skip == 1 ==> (after[fin.len() as int] matches BotIssue::NexusNotMined(_))
                    &&& building.is_townhall && !expansion_at(old(self).siting_director@, building.position) ==> after[fin.len() as int]
                        == BotIssue::NexusNotMined(BuildError::NoBuildingLocationHere(building.position))
                    &&& after.subrange(fin.len() + skip, after.len() as int) == minerals_not_mined(nearby_minerals@)
                }
                &&& building.unit_type == ut::PYLON ==> {
                    &&& extends(fin, after)
                    &&& forall|j: int| fin.len() <= j < after.len() ==> (#[trigger] after[j] matches BotIssue::PowerChange(e)
                        && refused_by_some_site(finished, e, ut::PYLON, building.position, true))
                    &&& forall|p: Point| #[trigger] finished.contains_key(p) && power_refusal(finished[p], ut::PYLON, building.position, true) is Some
                        ==> after.contains(BotIssue::PowerChange(power_refusal(finished[p], ut::PYLON, building.position, true)->0))
                }
                &&& assimilator(building.unit_type) ==> after == fin + if building.is_mineral || building.is_geyser {
                    Seq::<BotIssue>::empty()
                } else {
                    seq![BotIssue::CantMine(MiningError::NotHarvestable(Tag { tag: building.tag, unit_type: building.unit_type }))]
                }
                &&& (building.unit_type != ut::NEXUS && building.unit_type != ut::PYLON && !assimilator(building.unit_type)) ==> after == fin
            }),
    {
        if let Err(e) = self.siting_director.finish_construction(building) {
            self.issues.push(BotIssue::FinishingBuilding(e));
        }
        let ghost finished = self.siting_director@;
        let ghost fin = self.issues@;
        proof {
            assert(finished == sites_finished(old(self).siting_director@, *building));
            assert(fin =~= old(self).issues@ + finish_issues(old(self).siting_director@, *building));
        }
        proof {
            assert(expansion_at(finished, building.position) == expansion_at(old(self).siting_director@, building.position));
        }
        if building.unit_type == ut::NEXUS {
            if let Err(e) = self.new_base_finished(building) {
                self.issues.push(BotIssue::NexusNotMined(e));
            }
            let ghost base = self.mining_manager.assets_view();
            let ghost based = self.issues@;
            proof {
                assert(based.subrange(0, fin.len() as int) =~= fin);
            }
            let mut i: usize = 0;
            while i < nearby_minerals.len()
                invariant
                    i <= nearby_minerals@.len(),
                    self.wf(),
                    self.knowledge == old(self).knowledge,
                    self.siting_director@ == finished,
                    building.unit_type == ut::NEXUS,
                    self.mining_manager.assets_view() == harvest_filed_all(base, nearby_minerals@.subrange(0, i as int)),
                    self.mining_manager.miners_view() == old(self).mining_manager.miners_view(),
                    self.mining_manager.counts_view() == old(self).mining_manager.counts_view(),
                    self.mining_manager.priority_view() == old(self).mining_manager.priority_view(),
                    forall|k: int| 0 <= k < nearby_minerals@.len() ==> in_bounds(#[trigger] nearby_minerals@[k].position),
                    self.issues@ == based + minerals_not_mined(nearby_minerals@.subrange(0, i as int)),
                decreases nearby_minerals@.len() - i,
            {
                proof {
                    assert(nearby_minerals@.subrange(0, i as int + 1).drop_last() =~= nearby_minerals@.subrange(0, i as int));
                }
                if let Err(e) = self.mining_manager.add_resource(&nearby_minerals[i]) {
                    self.issues.push(BotIssue::MineralNotMined(e));
                }
                proof {
                    assert(self.issues@ =~= based + minerals_not_mined(nearby_minerals@.subrange(0, i as int + 1)));
                }
                i = i + 1;
            }
            proof {
                assert(nearby_minerals@.subrange(0, nearby_minerals@.len() as int) =~= nearby_minerals@);
                let skip: int = if building.is_townhall && expansion_at(old(self).siting_director@, building.position) { 0 } else { 1 };
                assert(based.len() == fin.len() + skip);
                assert(self.issues@.subrange(0, fin.len() as int) =~= fin);
                assert(self.issues@.subrange(fin.len() + skip, self.issues@.len() as int) =~= minerals_not_mined(nearby_minerals@));
                if skip == 1 {
                    assert(self.issues@[fin.len() as int] == based[fin.len() as int]);
                }
            }
        } else if building.unit_type == ut::PYLON {
            self.update_building_power(ut::PYLON, building.position, true);
        } else if is_assimilator(building.unit_type) {
            if let Err(e) = self.mining_manager.add_resource(building) {
                self.issues.push(BotIssue::CantMine(e));
            }
            proof {
                assert(self.issues@ =~= fin + if building.is_mineral || building.is_geyser {
                    Seq::<BotIssue>::empty()
                } else {
                    seq![BotIssue::CantMine(MiningError::NotHarvestable(Tag { tag: building.tag, unit_type: building.unit_type }))]
                });
            }
        }
    }

    /// Reacts to a building started: an assimilator takes its geyser's
    /// site, any other building its site; then the idle workers go back to
    /// work, each one reported.
    pub fn start_construction(&mut self, building: &UnitSnapshot, idle_workers: &Vec<u64>)
        requires
            old(self).wf(),
        ensures
            final(self).wf(),
            final(self).knowledge == old(self).knowledge,
            final(self).mining_manager.assets_view() == old(self).mining_manager.assets_view(),
            final(self).mining_manager.priority_view() == old(self).mining_manager.priority_view(),
            extends(old(self).mining_manager.miners_view(), final(self).mining_manager.miners_view()),
            final(self).siting_director@ == sites_started(old(self).siting_director@, *building),
            extends(old(self).issues@, final(self).issues@),
            ({
                let from = old(self).issues@.len() as int;
                let after = final(self).issues@;
                let refused = start_refused(old(self).siting_director@, *building);
                let s0: int = if refused { from + 1 } else { from };
                &&& s0 <= after.len()
                &&& refused && assimilator(building.unit_type) ==> after[from]
                    == BotIssue::AssimilatorNowhere(BuildError::NoConstructionSiteHere(building.position))
                &&& refused && !assimilator(building.unit_type) ==> (after[from] matches BotIssue::NoSlotForBuilding(_))
                &&& forall|j: int| s0 <= j < after.len() ==> ((#[trigger] after[j] matches BotIssue::BackToWork(_))
                    || (after[j] matches BotIssue::CantEmployWorker(_, _)))
                &&& sent_back(after.subrange(s0, after.len() as int)) == idle_workers@
                &&& employed_or_refused(idle_workers@, final(self).mining_manager.miners_view(), after, s0)
            }),
    {
        let tag = Tag::from_unit(building);
        if building.unit_type == ut::ASSIMILATOR || building.unit_type == ut::ASSIMILATOR_RICH {
            if let Err(problem) = self.siting_director.add_assimilator(building) {
                self.issues.push(BotIssue::AssimilatorNowhere(problem));
            }
        } else if let Err(e) = self.siting_director.construction_begin(tag, building.position) {
            self.issues.push(BotIssue::NoSlotForBuilding(e));
        }
        let ghost started = self.siting_director@;
        let ghost s0 = self.issues@.len() as int;
        proof {
            assert(started == sites_started(old(self).siting_director@, *building));
            assert(s0 == if start_refused(old(self).siting_director@, *building) { old(self).issues@.len() + 1int } else { old(self).issues@.len() as int });
            assert(self.issues@.subrange(s0, s0) =~= Seq::<BotIssue>::empty());
        }
        let mut i: usize = 0;
        while i < idle_workers.len()
            invariant
                i <= idle_workers@.len(),
                self.wf(),
                self.knowledge == old(self).knowledge,
                self.siting_director@ == started,
                self.mining_manager.assets_view() == old(self).mining_manager.assets_view(),
                self.mining_manager.priority_view() == old(self).mining_manager.priority_view(),
                extends(old(self).mining_manager.miners_view(), self.mining_manager.miners_view()),
                old(self).issues@.len() <= s0 <= self.issues@.len(),
                s0 == if start_refused(old(self).siting_director@, *building) { old(self).issues@.len() + 1int } else { old(self).issues@.len() as int },
                start_refused(old(self).siting_director@, *building) && assimilator(building.unit_type) ==> self.issues@[old(self).issues@.len() as int]
                    == BotIssue::AssimilatorNowhere(BuildError::NoConstructionSiteHere(building.position)),
                start_refused(old(self).siting_director@, *building) && !assimilator(building.unit_type)
                    ==> (self.issues@[old(self).issues@.len() as int] matches BotIssue::NoSlotForBuilding(_)),
                extends(old(self).issues@, self.issues@),
                forall|j: int| s0 <= j < self.issues@.len() ==> ((#[trigger] self.issues@[j] matches BotIssue::BackToWork(_))
                    || (self.issues@[j] matches BotIssue::CantEmployWorker(_, _))),
                sent_back(self.issues@.subrange(s0, self.issues@.len() as int)) == idle_workers@.subrange(0, i as int),
                employed_or_refused(idle_workers@.subrange(0, i as int), self.mining_manager.miners_view(), self.issues@, s0),
            decreases idle_workers@.len() - i,
        {
            let ghost before = *self;
            let w = idle_workers[i];
            self.back_to_work(w);
            let ghost middle = self.issues@;
            self.issues.push(BotIssue::BackToWork(w));
            proof {
                let mb = before.mining_manager.miners_view();
                let ma = self.mining_manager.miners_view();
                match before.mining_manager.assign_answer(w) {
                    Ok(()) => {
                        let job = choose|job: MinerAssignment| #[trigger] valid_job(before.mining_manager.assets_view(),
                            before.mining_manager.counts_view(), before.mining_manager.priority_view(), job)
                            && ma == mb.push((w, (job, MinerMicroState::Idle)))
                            && self.mining_manager.counts_view() == MinerManager::bumped(before.mining_manager.counts_view(), job.resource.tag)
                            && self.mining_manager.assets_view() == before.mining_manager.assets_view()
                            && self.mining_manager.priority_view() == before.mining_manager.priority_view();
                        assert(ma[mb.len() as int].0 == w);
                    },
                    Err(_) => {},
                }
                assert(extends(mb, ma));
                let n = self.issues@.len() as int;
                let x = self.issues@.subrange(s0, n);
                assert(x.drop_last() =~= middle.subrange(s0, n - 1));
                assert(x.last() == BotIssue::BackToWork(w));
                assert(sent_back(x) == sent_back(x.drop_last()).push(w));
                let y = middle.subrange(s0, n - 1);
                if middle.len() > before.issues@.len() {
                    assert(y.drop_last() =~= before.issues@.subrange(s0, n - 2));
                    assert(middle[n - 2] matches BotIssue::CantEmployWorker(_, _));
                    assert(y.last() == middle[n - 2]);
                    assert(sent_back(y) == sent_back(y.drop_last()));
                } else {
                    assert(middle =~= before.issues@);
                }
                assert(idle_workers@.subrange(0, i as int + 1) =~= idle_workers@.subrange(0, i as int).push(w));
                assert forall|j: int| s0 <= j < self.issues@.len() implies ((#[trigger] self.issues@[j] matches BotIssue::BackToWork(_))
                    || (self.issues@[j] matches BotIssue::CantEmployWorker(_, _))) by {
                    if j < before.issues@.len() {
                        assert(self.issues@[j] == before.issues@[j]);
                    } else if j < middle.len() {
                        assert(self.issues@[j] == middle[j]);
                    }
                }
                assert forall|k: int| 0 <= k < before.issues@.len() implies #[trigger] self.issues@[k] == before.issues@[k] by {
                    assert(self.issues@[k] == middle[k]);
                }
                let done = idle_workers@.subrange(0, i as int + 1);
                assert forall|j: int| 0 <= j < done.len() implies has_key(ma, #[trigger] done[j]) || no_job_reported_from(self.issues@, s0) by {
                    if j < i {
                        assert(done[j] == idle_workers@.subrange(0, i as int)[j]);
                        if has_key(mb, done[j]) {
                            lemma_has_key_extended(mb, ma, done[j]);
                        } else {
                            let k = choose|k: int| s0 <= k < before.issues@.len() && ((#[trigger] before.issues@[k] matches BotIssue::CantEmployWorker(MiningError::NoTownhalls, _))
                                || (before.issues@[k] matches BotIssue::CantEmployWorker(MiningError::NoResources, _)));
                            assert(self.issues@[k] == before.issues@[k]);
                        }
                    } else {
                        assert(done[j] == w);
                        match before.mining_manager.assign_answer(w) {
                            Ok(()) => {
                                assert(ma[mb.len() as int].0 == w);
                            },
                            Err(e) => {
                                if has_key(mb, w) {
                                    lemma_has_key_extended(mb, ma, w);
                                } else {
                                    let k = before.issues@.len() as int;
                                    assert(middle[k] == BotIssue::CantEmployWorker(e, before.mining_manager.tally()));
                                    assert(self.issues@[k] == middle[k]);
                                }
                            },
                        }
                    }
                }
            }
            i = i + 1;
        }
        proof {
            assert(idle_workers@.subrange(0, idle_workers@.len() as int) =~= idle_workers@);
        }
    }

    /// The first frame: the mineral fields by the start are mined, every
    /// worker goes to work, and the first nexus takes its site.
    pub fn first_frame(&mut self, nearby_minerals: &Vec<UnitSnapshot>, workers: &Vec<u64>, first_townhall: Option<&UnitSnapshot>)
        requires
            old(self).wf(),
            forall|k: int| 0 <= k < nearby_minerals@.len() ==> in_bounds(#[trigger] nearby_minerals@[k].position),
        ensures
            final(self).wf(),
            final(self).knowledge == old(self).knowledge,
            final(self).mining_manager.assets_view() == harvest_filed_all(old(self).mining_manager.assets_view(), nearby_minerals@),
            final(self).mining_manager.priority_view() == old(self).mining_manager.priority_view(),
            extends(old(self).mining_manager.miners_view(), final(self).mining_manager.miners_view()),
            final(self).siting_director@ == match first_townhall {
                Some(nexus) => sites_with_initial_nexus(old(self).siting_director@, *nexus),
                None => old(self).siting_director@,
            },
            extends(old(self).issues@, final(self).issues@),
            ({
                let from = old(self).issues@.len() as int;
                let after = final(self).issues@;
                let mined = from + initial_minerals_refused(nearby_minerals@).len();
                let no_nexus = match first_townhall {
                    Some(nexus) => !old(self).siting_director@.contains_key(nexus.position),
                    None => true,
                };
                let end: int = if no_nexus { after.len() - 1 } else { after.len() as int };
                &&& mined <= end
                &&& after.subrange(from, mined) == initial_minerals_refused(nearby_minerals@)
                &&& forall|j: int| mined <= j < end ==> (#[trigger] after[j] matches BotIssue::CantEmployWorker(_, _))
                &&& no_nexus ==> (after.last() matches BotIssue::NoInitialNexus(_))
                &&& first_townhall matches Some(nexus) ==> (no_nexus ==> after.last()
                    == BotIssue::NoInitialNexus(BuildError::CantPlace(nexus.position, nexus.unit_type)))
                &&& employed_or_refused(workers@, final(self).mining_manager.miners_view(), after, mined)
            }),
    {
        let ghost from = old(self).issues@.len() as int;
        let mut i: usize = 0;
        while i < nearby_minerals.len()
            invariant
                i <= nearby_minerals@.len(),
                from == old(self).issues@.len(),
                self.wf(),
                self.knowledge == old(self).knowledge,
                self.siting_director == old(self).siting_director,
                self.mining_manager.assets_view() == harvest_filed_all(old(self).mining_manager.assets_view(), nearby_minerals@.subrange(0, i as int)),
                self.mining_manager.priority_view() == old(self).mining_manager.priority_view(),
                self.mining_manager.miners_view() == old(self).mining_manager.miners_view(),
                forall|k: int| 0 <= k < nearby_minerals@.len() ==> in_bounds(#[trigger] nearby_minerals@[k].position),
                self.issues@ == old(self).issues@ + initial_minerals_refused(nearby_minerals@.subrange(0, i as int)),
            decreases nearby_minerals@.len() - i,
        {
            proof {
                assert(nearby_minerals@.subrange(0, i as int + 1).drop_last() =~= nearby_minerals@.subrange(0, i as int));
            }
            if let Err(e) = self.mining_manager.add_resource(&nearby_minerals[i]) {
                self.issues.push(BotIssue::InitialMinerals(e));
            }
            proof {
                assert(self.issues@ =~= old(self).issues@ + initial_minerals_refused(nearby_minerals@.subrange(0, i as int + 1)));
            }
            i = i + 1;
        }
        proof {
            assert(nearby_minerals@.subrange(0, nearby_minerals@.len() as int) =~= nearby_minerals@);
        }
        let ghost mined_issues = self.issues@;
        self.all_back_to_work(workers);
        let ghost employed = self.issues@;
        let inserted = match first_townhall {
            Some(nexus) => self.siting_director.add_initial_nexus(nexus),
            None => Err(BuildError::InvalidUnit(String::from_str("No nexus at game start?!"))),
        };
        if let Err(e) = inserted {
            self.issues.push(BotIssue::NoInitialNexus(e));
        }
        proof {
            let mined = mined_issues.len() as int;
            assert(self.issues@.subrange(from, mined) =~= mined_issues.subrange(from, mined));
            assert(mined_issues.subrange(from, mined) =~= initial_minerals_refused(nearby_minerals@));
            assert forall|j: int| 0 <= j < employed.len() implies #[trigger] self.issues@[j] == employed[j] by {}
            assert forall|j: int| 0 <= j < old(self).issues@.len() implies #[trigger] self.issues@[j] == old(self).issues@[j] by {
                assert(self.issues@[j] == employed[j]);
                assert(employed[j] == mined_issues[j]);
            }
            assert forall|j: int| 0 <= j < workers@.len() implies has_key(self.mining_manager.miners_view(), #[trigger] workers@[j])
                || no_job_reported_from(self.issues@, mined) by {
                if !has_key(self.mining_manager.miners_view(), workers@[j]) {
                    let k = choose|k: int| mined <= k < employed.len() && ((#[trigger] employed[k] matches BotIssue::CantEmployWorker(MiningError::NoTownhalls, _))
                        || (employed[k] matches BotIssue::CantEmployWorker(MiningError::NoResources, _)));
                    assert(self.issues@[k] == employed[k]);
                }
            }
        }
    }

    /// Picks where to put a structure (the free site nearest the start that
    /// fits it) and who builds it (the nearest worker, taken from mining if
    /// it mined). Refused for a type without a footprint, when no site fits,
    /// and without workers.
    pub fn plan_build(&mut self, structure_type: UnitType, start_location: Point, workers: &Vec<(u64, Point)>) -> (r: Result<(u64, Point), BuildError>)
        requires
            old(self).wf(),
        ensures
            final(self).wf(),
            final(self).knowledge == old(self).knowledge,
            final(self).siting_director == old(self).siting_director,
            r is Ok ==> old(self).siting_director@.contains_key(r->Ok_0.1),
            r is Ok ==> picked_nearest(workers@, r->Ok_0.1, r->Ok_0.0),
            r is Err ==> final(self).mining_manager == old(self).mining_manager && final(self).issues == old(self).issues,
            slot_for(structure_type) is None ==> (r matches Err(BuildError::InvalidUnit(_))),
            slot_for(structure_type) matches Some(size) ==> {
                let m = old(self).siting_director@;
                let site_fits = exists|p: Point| #[trigger] m.contains_key(p) && SitingDirector::fits(m[p], size, structure_type);
                &&& !site_fits ==> r == Err::<(u64, Point), BuildError>(BuildError::NoPlacementLocations)
                &&& site_fits && workers@.len() == 0 ==> r == Err::<(u64, Point), BuildError>(BuildError::NoTrainer)
                &&& site_fits && workers@.len() > 0 ==> r is Ok
                &&& r matches Ok((builder, at)) ==> {
                    &&& SitingDirector::fits(m[at], size, structure_type)
                    &&& forall|p: Point| #[trigger] m.contains_key(p) && SitingDirector::fits(m[p], size, structure_type)
                        ==> dist2(at, start_location) <= dist2(p, start_location)
                    &&& has_key(old(self).mining_manager.miners_view(), builder) ==> final(self).issues@
                        == old(self).issues@.push(BotIssue::TookBuilder(builder, structure_type))
                    &&& !has_key(old(self).mining_manager.miners_view(), builder) ==> final(self).issues == old(self).issues
                        && MinerManager::unchanged(&old(self).mining_manager, &final(self).mining_manager)
                    &&& !has_key(final(self).mining_manager.miners_view(), builder)
                    &&& final(self).mining_manager.assets_view() == old(self).mining_manager.assets_view()
                }
            },
    {
        let size = SlotSize::from(structure_type)?;
        let position = match self.siting_director.get_available_building_site_prioritized(size, structure_type, start_location) {
            Some(p) => p,
            None => { return Err(BuildError::NoPlacementLocations); },
        };
        let at = position.location();
        let k = match closest_worker(workers, at) {
            Some(k) => k,
            None => { return Err(BuildError::NoTrainer); },
        };
        let builder_tag = workers[k].0;
        proof {
            assert(is_nearest(workers@, at, k as int));
            assert(picked_nearest(workers@, at, builder_tag));
        }
        let builder_conscripted = self.mining_manager.remove_miner(builder_tag);
        if builder_conscripted {
            self.issues.push(BotIssue::TookBuilder(builder_tag, structure_type));
        }
        Ok((builder_tag, at))
    }

    /// Picks a free geyser within reach of the expansion location `near` and
    /// the worker nearest to it: hands back the worker and the geyser.
    /// Refused with `NoBuildingLocationHere` when `near` is not an expansion
    /// location, when no geyser is free there, and without workers.
    pub fn take_gas(&self, near: Point, workers: &Vec<(u64, Point)>) -> (r: Result<(u64, u64), BuildError>)
        requires
            self.wf(),
        ensures
            r matches Ok((builder, geyser)) ==> exists|p: Point| #[trigger] self.siting_director@.contains_key(p)
                && self.siting_director@[p].location == LocationType::OnGeyser(geyser, p)
                && dist2(p, near) <= ACCEPTABLE_GAS_DISTANCE * ACCEPTABLE_GAS_DISTANCE
                && exists|k: int| #[trigger] is_nearest(workers@, p, k) && workers@[k].0 == builder,
            workers@.len() == 0 ==> r is Err,
            ({
                let m = self.siting_director@;
                let reach = ACCEPTABLE_GAS_DISTANCE * ACCEPTABLE_GAS_DISTANCE;
                let free = exists|p: Point| #[trigger] m.contains_key(p) && dist2(p, near) <= reach
                    && status_can_build(m[p].status, ut::ASSIMILATOR);
                let here = expansion_at(m, near);
                &&& !here ==> r == Err::<(u64, u64), BuildError>(BuildError::NoBuildingLocationHere(near))
                &&& here && !free ==> r == Err::<(u64, u64), BuildError>(BuildError::NoPlacementLocations)
                &&& here && free && workers@.len() == 0 ==> r == Err::<(u64, u64), BuildError>(BuildError::NoTrainer)
                &&& here && free && workers@.len() > 0 ==> (r is Ok || (r matches Err(BuildError::CantPlace(_, _))))
                &&& here && free && workers@.len() > 0 && (forall|p: Point| #[trigger] m.contains_key(p) && dist2(p, near) <= reach
                    && status_can_build(m[p].status, ut::ASSIMILATOR) ==> (m[p].location matches LocationType::OnGeyser(_, _))) ==> r is Ok
            }),
            r == gas_outcome(self.siting_director@, self.siting_director.site_list(), near, workers@),
    {
        if !self.siting_director.is_expansion_location(near) {
            return Err(BuildError::NoBuildingLocationHere(near));
        }
        let gas = match self.siting_director.get_free_geyser(near, ACCEPTABLE_GAS_DISTANCE) {
            Some(g) => g,
            None => { return Err(BuildError::NoPlacementLocations); },
        };
        let k = match closest_worker(workers, gas.location()) {
            Some(k) => k,
            None => { return Err(BuildError::NoTrainer); },
        };
        match gas.location {
            LocationType::OnGeyser(geyser, point) => {
                proof {
                    assert(self.siting_director@.contains_key(location_point(gas.location)));
                    assert(is_nearest(workers@, point, k as int));
                    lemma_nearest_unique(workers@, point, k as int, nearest_worker(workers@, point));
                }
                Ok((workers[k].0, geyser))
            },
            LocationType::AtPoint(_, _) => Err(BuildError::CantPlace(gas.location(), ut::ASSIMILATOR)),
        }
    }

    /// Takes a gas at the first of the townhalls where one can be taken (see
    /// `take_gas`); refused with `NoPlacementLocations` when none can.
    pub fn build_gas(&self, townhalls: &Vec<Point>, workers: &Vec<(u64, Point)>) -> (r: Result<(u64, u64), BuildError>)
        requires
            self.wf(),
        ensures
            r is Err ==> r == Err::<(u64, u64), BuildError>(BuildError::NoPlacementLocations),
            r matches Ok((builder, geyser)) ==> exists|k: int| 0 <= k < townhalls@.len()
                && gas_taken_at(self.siting_director@, #[trigger] townhalls@[k], workers@, builder, geyser),
            (exists|k: int| 0 <= k < townhalls@.len() && gas_takeable(self.siting_director@, #[trigger] townhalls@[k], workers@)) ==> r is Ok,
            (forall|k: int| 0 <= k < townhalls@.len() ==> gas_untakeable(self.siting_director@, #[trigger] townhalls@[k], workers@))
                ==> r is Err,
            r == first_gas_from(self.siting_director@, self.siting_director.site_list(), townhalls@, workers@, 0),
            r is Err <==> forall|k: int| 0 <= k < townhalls@.len()
                ==> (#[trigger] gas_outcome(self.siting_director@, self.siting_director.site_list(), townhalls@[k], workers@)) is Err,
    {
        let ghost m = self.siting_director@;
        let ghost list = self.siting_director.site_list();
        let mut i: usize = 0;
        while i < townhalls.len()
            invariant
                i <= townhalls@.len(),
                self.wf(),
                m == self.siting_director@,
                list == self.siting_director.site_list(),
                forall|k: int| 0 <= k < i ==> !gas_takeable(self.siting_director@, #[trigger] townhalls@[k], workers@),
                forall|k: int| 0 <= k < i ==> (#[trigger] gas_outcome(m, list, townhalls@[k], workers@)) is Err,
                first_gas_from(m, list, townhalls@, workers@, 0) == first_gas_from(m, list, townhalls@, workers@, i as int),
            decreases townhalls@.len() - i,
        {
            match self.take_gas(townhalls[i], workers) {
                Ok(pair) => {
                    proof {
                        assert(gas_taken_at(self.siting_director@, townhalls@[i as int], workers@, pair.0, pair.1));
                    }
                    return Ok(pair);
                },
                Err(_) => {},
            }
            i = i + 1;
        }
        Err(BuildError::NoPlacementLocations)
    }

    /// Deals with a build action that failed: a site where the building
    /// could not be placed is marked obstructed, which settles it; anything
    /// else, and a site that refuses the mark, is handed back to be reported.
    pub fn build_failed(&mut self, err: BuildError) -> (report: Option<Either<BuildError, BuildingTransitionError>>)
        requires
            old(self).wf(),
        ensures
            final(self).wf(),
            final(self).knowledge == old(self).knowledge,
            final(self).mining_manager == old(self).mining_manager,
            final(self).issues == old(self).issues,
            match err {
                BuildError::CantPlace(location, _) => {
                    let blocked = if old(self).siting_director@.contains_key(location) {
                        next_status(old(self).siting_director@[location].status, BuildingTransition::Obstruct)
                    } else {
                        None
                    };
                    match blocked {
                        Some(n) => report is None && final(self).siting_director@ == old(self).siting_director@.insert(
                            location, ConstructionSite { status: n, location: old(self).siting_director@[location].location }),
                        None => final(self).siting_director@ == old(self).siting_director@
                            && report == Some(Either::<BuildError, BuildingTransitionError>::Left(BuildError::NoConstructionSiteHere(location))),
                    }
                },
                _ => final(self).siting_director == old(self).siting_director
                    && report == Some(Either::<BuildError, BuildingTransitionError>::Left(err)),
            },
    {
        match err {
            BuildError::CantPlace(location, _) => {
                match self.siting_director.mark_position_blocked(location, BuildingTransition::Obstruct) {
                    Ok(()) => None,
                    Err(e) => Some(e),
                }
            },
            _ => Some(Either::Left(err)),
        }
    }
}

impl Default for BotCore {
    /// Nothing known, no sites, no mining, no issues.
    fn default() -> (b: Self)
        ensures
            b.wf(),
            b.knowledge.seen() == Map::<u64, UnitKnowledge>::empty(),
            b.knowledge.dead() == Map::<u64, UnitKnowledge>::empty(),
            b.siting_director@ == Map::<Point, crate::siting::ConstructionSite>::empty(),
            b.mining_manager.miners_view().len() == 0,
            b.mining_manager.assets_view().len() == 0,
            b.issues@.len() == 0,
    {
        BotCore {
            knowledge: Knowledge::default(),
            siting_director: SitingDirector::default(),
            mining_manager: MinerManager::default(),
            issues: Vec::new(),
        }
    }
}

} // verus!
