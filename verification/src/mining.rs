//! Worker mining kept in an assignment table: each mineral field or gas
//! building paired with its townhall is a role, each worker an assignee.
use crate::abilities as ab;
use crate::assignment_manager::{count_with_role, paired, AssignmentManager, Commands, Identity};
use crate::geometry::{in_bounds, Point};
use crate::ids::Ability;
use crate::keyed::Key;
use crate::micro::{next_micro_state, worker_update as micro_update, MinerAsset as AssetKind, MinerAssignment, MinerMicroState, ResourceSite};
use crate::unit_types as ut;
use crate::text::{decimal_chars, push_decimal};
use crate::units::{Target, UnitSnapshot};
use vstd::prelude::*;

verus! {

/// An order for a miner: the ability, its target, and whether it is queued.
pub type MiningCommand = (Ability, Target, bool);

/// A worker as the mining table keeps it.
#[derive(Debug, Clone, Copy, PartialEq, Eq, Structural)]
pub struct Miner {
    pub worker_tag: u64,
    pub state: MinerMicroState,
    pub holding_resource: bool,
    pub position: Point,
}

impl Miner {
    /// The worker as observed, keeping its gathering state.
    pub fn update(unit: &UnitSnapshot, last_state: MinerMicroState) -> (m: Miner)
        ensures
            m == (Miner { worker_tag: unit.tag, state: last_state, holding_resource: unit.is_carrying_resource, position: unit.position }),
    {
        Miner { worker_tag: unit.tag, state: last_state, holding_resource: unit.is_carrying_resource, position: unit.position }
    }

    /// A newly observed worker, idle.
    pub fn new(unit: &UnitSnapshot) -> (m: Miner)
        ensures
            m == (Miner { worker_tag: unit.tag, state: MinerMicroState::Idle, holding_resource: unit.is_carrying_resource, position: unit.position }),
    {
        Miner { worker_tag: unit.tag, state: MinerMicroState::Idle, holding_resource: unit.is_carrying_resource, position: unit.position }
    }
}

impl Identity<u64> for Miner {
    open spec fn identity(&self) -> u64 {
        self.worker_tag
    }

    fn id(&self) -> (i: u64) {
        self.worker_tag
    }
}

/// What is mined: minerals or gas.
#[derive(Debug, Clone, Copy, PartialEq, Eq, Structural)]
pub enum AssetType {
    Minerals,
    Gas,
}

/// A mined asset: where it is and what it gives.
#[derive(Debug, Clone, Copy, PartialEq, Eq, Structural)]
pub struct MinerAsset {
    pub location: Point,
    pub asset_type: AssetType,
}

/// The townhall workers bring cargo to.
#[derive(Debug, Clone, Copy, PartialEq, Eq, Structural)]
pub struct Townhall {
    pub tag: u64,
    pub location: Point,
}

/// A mining role: an asset and the townhall it is mined for.
#[derive(Debug, Clone, Copy, PartialEq, Eq, Structural)]
pub struct ResourcePairing {
    pub resource: MinerAsset,
    pub townhall: Townhall,
    pub location: Point,
    pub tag: u64,
}

/// The identifier of a mining role: the asset's tag and the townhall's.
#[derive(Debug, Clone, Copy, PartialEq, Eq, Structural)]
pub struct JobId {
    pub resource_tag: u64,
    pub townhall_tag: u64,
}

impl Key for JobId {
    fn same_key(&self, other: &Self) -> (b: bool) {
        self.resource_tag == other.resource_tag && self.townhall_tag == other.townhall_tag
    }
}

/// The role of mining `resource` for `townhall`.
pub open spec fn pairing_of(resource: UnitSnapshot, townhall: UnitSnapshot) -> ResourcePairing {
    ResourcePairing {
        resource: MinerAsset {
            location: resource.position,
            asset_type: if resource.is_mineral { AssetType::Minerals } else { AssetType::Gas },
        },
        townhall: Townhall { tag: townhall.tag, location: townhall.position },
        location: resource.position,
        tag: resource.tag,
    }
}

impl ResourcePairing {
    /// Whether the asset gives minerals.
    pub fn is_mineral(&self) -> (b: bool)
        ensures
            b == (self.resource.asset_type == AssetType::Minerals),
    {
        self.resource.asset_type == AssetType::Minerals
    }

    /// Whether the asset gives gas.
    pub fn is_gas(&self) -> (b: bool)
        ensures
            b == (self.resource.asset_type == AssetType::Gas),
    {
        self.resource.asset_type == AssetType::Gas
    }

    /// The role of mining `resource` for `nearest_townhall`.
    pub fn new(resource: &UnitSnapshot, nearest_townhall: &UnitSnapshot) -> (p: ResourcePairing)
        ensures
            p == pairing_of(*resource, *nearest_townhall),
    {
        ResourcePairing {
            resource: MinerAsset {
                location: resource.position,
                asset_type: if resource.is_mineral { AssetType::Minerals } else { AssetType::Gas },
            },
            townhall: Townhall { tag: nearest_townhall.tag, location: nearest_townhall.position },
            location: resource.position,
            tag: resource.tag,
        }
    }
}

impl Identity<JobId> for ResourcePairing {
    open spec fn identity(&self) -> JobId {
        JobId { resource_tag: self.tag, townhall_tag: self.townhall.tag }
    }

    fn id(&self) -> (i: JobId) {
        JobId { resource_tag: self.tag, townhall_tag: self.townhall.tag }
    }
}

/// Whether a role has room for another worker: two on minerals, three on gas.
pub open spec fn has_room(p: ResourcePairing, count: nat) -> bool {
    (p.resource.asset_type == AssetType::Minerals && count < 2) || (p.resource.asset_type == AssetType::Gas && count < 3)
}

/// The first role of the table, from position `from` on, with room.
pub open spec fn first_open(roles: Seq<(JobId, ResourcePairing)>, asg: Seq<(u64, JobId)>, from: int) -> Option<int>
    decreases roles.len() - from,
{
    if from < 0 || from >= roles.len() {
        None
    } else if has_room(roles[from].1, count_with_role(asg, roles[from].0)) {
        Some(from)
    } else {
        first_open(roles, asg, from + 1)
    }
}

/// The worker as the state machine of `micro` sees it.
pub open spec fn as_snapshot(m: Miner) -> UnitSnapshot {
    UnitSnapshot {
        tag: m.worker_tag,
        unit_type: ut::PROBE,
        position: m.position,
        is_mineral: false,
        is_geyser: false,
        is_townhall: false,
        is_carrying_resource: m.holding_resource,
    }
}

/// The role as the state machine of `micro` sees it.
pub open spec fn as_assignment(p: ResourcePairing) -> MinerAssignment {
    MinerAssignment {
        resource: ResourceSite {
            resource: if p.resource.asset_type == AssetType::Minerals { AssetKind::Minerals } else { AssetKind::Gas },
            location: p.resource.location,
            tag: p.tag,
        },
        townhall: ResourceSite { resource: AssetKind::Townhall, location: p.townhall.location, tag: p.townhall.tag },
    }
}

/// The next gathering state of a miner in its role: the same round as in
/// `micro` (walk to the asset, gather, walk back, hand in).
pub fn worker_update(unit: &Miner, assignment: &ResourcePairing) -> (next: MinerMicroState)
    requires
        in_bounds(assignment.resource.location),
        in_bounds(assignment.townhall.location),
    ensures
        next == next_micro_state(as_snapshot(*unit), unit.state, as_assignment(*assignment)),
{
    let snapshot = UnitSnapshot {
        tag: unit.worker_tag,
        unit_type: ut::PROBE,
        position: unit.position,
        is_mineral: false,
        is_geyser: false,
        is_townhall: false,
        is_carrying_resource: unit.holding_resource,
    };
    let job = MinerAssignment {
        resource: ResourceSite {
            resource: if assignment.is_mineral() { AssetKind::Minerals } else { AssetKind::Gas },
            location: assignment.resource.location,
            tag: assignment.tag,
        },
        townhall: ResourceSite { resource: AssetKind::Townhall, location: assignment.townhall.location, tag: assignment.townhall.tag },
    };
    micro_update(&snapshot, unit.state, &job)
}

/// The order for a miner in its gathering state.
pub open spec fn mining_command_for(state: MinerMicroState, p: ResourcePairing) -> MiningCommand {
    match state {
        MinerMicroState::Gather => (ab::SMART, Target::Tag(p.tag), false),
        MinerMicroState::ReturnCargo => (ab::HARVEST_RETURN, Target::NoTarget, false),
        MinerMicroState::GatherMove(point) => (ab::MOVE, Target::Pos(point), false),
        MinerMicroState::ReturnMove(point) => (ab::MOVE, Target::Pos(point), false),
        MinerMicroState::Idle => (ab::STOP, Target::NoTarget, false),
    }
}

/// The order for a miner in its gathering state.
pub fn worker_micro(unit: &Miner, assignment: &ResourcePairing) -> (c: MiningCommand)
    ensures
        c == mining_command_for(unit.state, *assignment),
{
    let (ability, target) = match unit.state {
        MinerMicroState::Gather => (ab::SMART, Target::Tag(assignment.tag)),
        MinerMicroState::ReturnCargo => (ab::HARVEST_RETURN, Target::NoTarget),
        MinerMicroState::GatherMove(point) | MinerMicroState::ReturnMove(point) => (ab::MOVE, Target::Pos(point)),
        MinerMicroState::Idle => (ab::STOP, Target::NoTarget),
    };
    (ability, target, false)
}

/// The mining table.
pub struct MinerController {
    pub mining_manager: AssignmentManager<Miner, ResourcePairing, u64, JobId>,
}

/// Every role's asset and townhall lie within the map bounds.
pub open spec fn roles_in_bounds(roles: Seq<(JobId, ResourcePairing)>) -> bool {
    forall|k: int| 0 <= k < roles.len() ==> in_bounds((#[trigger] roles[k]).1.resource.location)
        && in_bounds(roles[k].1.townhall.location)
}

impl MinerController {
    /// The table is well formed and every role lies within the map.
    pub open spec fn wf(&self) -> bool {
        &&& self.mining_manager.wf()
        &&& roles_in_bounds(self.mining_manager.role_table())
    }

    /// Gives a worker the first role, in the order of the role table, with
    /// room; refused (with code 2) when no role has room. A worker that
    /// already has a role keeps it.
    pub fn add_worker(&mut self, new_miner: Miner) -> (r: Result<(), u8>)
        requires
            old(self).wf(),
        ensures
            final(self).wf(),
            final(self).mining_manager.roles_view() == old(self).mining_manager.roles_view(),
            final(self).mining_manager.role_table() == old(self).mining_manager.role_table(),
            first_open(old(self).mining_manager.role_table(), old(self).mining_manager.assignment_table(), 0) is None
                ==> r == Err::<(), u8>(2) && final(self).mining_manager.assignments_view() == old(self).mining_manager.assignments_view(),
            first_open(old(self).mining_manager.role_table(), old(self).mining_manager.assignment_table(), 0) matches Some(k)
                ==> r is Ok && (old(self).mining_manager.assignments_view().dom().contains(new_miner.worker_tag)
                    ==> final(self).mining_manager.assignments_view() == old(self).mining_manager.assignments_view())
                && (!old(self).mining_manager.assignments_view().dom().contains(new_miner.worker_tag)
                    ==> final(self).mining_manager.assignments_view() == old(self).mining_manager.assignments_view().insert(
                        new_miner.worker_tag, old(self).mining_manager.role_table()[k].0)),
    {
        let ghost roles = self.mining_manager.role_table();
        let ghost asg = self.mining_manager.assignment_table();
        let counts = self.mining_manager.count_assignments();
        let mut found: Option<ResourcePairing> = None;
        let mut i: usize = 0;
        while i < counts.len()
            invariant
                i <= counts@.len(),
                counts@.len() == roles.len(),
                forall|k: int| 0 <= k < counts@.len() ==> *(#[trigger] counts@[k]).0 == roles[k].1
                    && counts@[k].1 == count_with_role(asg, roles[k].0),
                found is None ==> first_open(roles, asg, 0) == first_open(roles, asg, i as int),
                found matches Some(p) ==> first_open(roles, asg, 0) matches Some(k) && roles[k].1 == p,
            decreases counts@.len() - i,
        {
            if found.is_none() {
                let pairing = *counts[i].0;
                let count = counts[i].1;
                if (pairing.is_mineral() && count < 2) || (pairing.is_gas() && count < 3) {
                    found = Some(pairing);
                }
            }
            i = i + 1;
        }
        let job = match found {
            Some(p) => p,
            None => { return Err(2); },
        };
        proof {
            let k = first_open(roles, asg, 0)->0;
            law_new_worker_gets_first_free_role(roles, asg, 0);
            self.mining_manager.lemma_role_filed(k);
        }
        let _ = self.mining_manager.assign(new_miner, &job);
        Ok(())
    }

    /// Takes a worker's role away; whether it had one.
    pub fn remove_worker(&mut self, worker_tag: u64) -> (removed: bool)
        requires
            old(self).wf(),
        ensures
            final(self).wf(),
            removed == old(self).mining_manager.assignments_view().dom().contains(worker_tag),
            final(self).mining_manager.assignments_view() == old(self).mining_manager.assignments_view().remove(worker_tag),
            final(self).mining_manager.roles_view() == old(self).mining_manager.roles_view(),
    {
        let r = self.mining_manager.unassign(worker_tag);
        proof {
            if r is Err {
                assert(old(self).mining_manager.assignments_view().remove(worker_tag) =~= old(self).mining_manager.assignments_view());
            }
        }
        r.is_ok()
    }

    /// The workers on file, in the order of the assignee table.
    pub fn employed_miners(&self) -> (tags: Vec<u64>)
        requires
            self.wf(),
        ensures
            tags@.len() == self.mining_manager.assignee_table().len(),
            forall|k: int| 0 <= k < tags@.len() ==> #[trigger] tags@[k] == self.mining_manager.assignee_table()[k].1.worker_tag,
    {
        let assignees = self.mining_manager.iter_assignees();
        let mut tags: Vec<u64> = Vec::new();
        let mut i: usize = 0;
        while i < assignees.len()
            invariant
                i <= assignees@.len(),
                assignees@.len() == self.mining_manager.assignee_table().len(),
                forall|k: int| 0 <= k < assignees@.len() ==> *(#[trigger] assignees@[k]) == self.mining_manager.assignee_table()[k].1,
                tags@.len() == i,
                forall|k: int| 0 <= k < i ==> #[trigger] tags@[k] == self.mining_manager.assignee_table()[k].1.worker_tag,
            decreases assignees@.len() - i,
        {
            tags.push(assignees[i].id());
            i = i + 1;
        }
        tags
    }

    /// For each role, in the order of the role table, the role and how many
    /// workers hold it.
    pub fn saturation(&self) -> (r: Vec<(&ResourcePairing, usize)>)
        requires
            self.wf(),
        ensures
            r@.len() == self.mining_manager.role_table().len(),
            forall|k: int| 0 <= k < r@.len() ==> *(#[trigger] r@[k]).0 == self.mining_manager.role_table()[k].1
                && r@[k].1 == count_with_role(self.mining_manager.assignment_table(), self.mining_manager.role_table()[k].0),
    {
        self.mining_manager.count_assignments()
    }

    /// Files the roles of mining each nearby asset for `townhall`; a role
    /// already on file is kept.
    pub fn add_townhall(&mut self, townhall: &UnitSnapshot, nearby_resources: &Vec<UnitSnapshot>)
        requires
            old(self).wf(),
            in_bounds(townhall.position),
            forall|k: int| 0 <= k < nearby_resources@.len() ==> in_bounds(#[trigger] nearby_resources@[k].position),
        ensures
            final(self).wf(),
            final(self).mining_manager.assignments_view() == old(self).mining_manager.assignments_view(),
            forall|k: int| 0 <= k < nearby_resources@.len() ==> final(self).mining_manager.roles_view().dom().contains(
                #[trigger] pairing_of(nearby_resources@[k], *townhall).identity()),
            forall|j: JobId| #[trigger] old(self).mining_manager.roles_view().dom().contains(j)
                ==> final(self).mining_manager.roles_view().dom().contains(j) && final(self).mining_manager.roles_view()[j] == old(self).mining_manager.roles_view()[j],
    {
        let mut i: usize = 0;
        while i < nearby_resources.len()
            invariant
                i <= nearby_resources@.len(),
                self.wf(),
                in_bounds(townhall.position),
                forall|k: int| 0 <= k < nearby_resources@.len() ==> in_bounds(#[trigger] nearby_resources@[k].position),
                self.mining_manager.assignments_view() == old(self).mining_manager.assignments_view(),
                forall|k: int| 0 <= k < i ==> self.mining_manager.roles_view().dom().contains(
                    #[trigger] pairing_of(nearby_resources@[k], *townhall).identity()),
                forall|j: JobId| #[trigger] old(self).mining_manager.roles_view().dom().contains(j)
                    ==> self.mining_manager.roles_view().dom().contains(j) && self.mining_manager.roles_view()[j] == old(self).mining_manager.roles_view()[j],
            decreases nearby_resources@.len() - i,
        {
            let role = ResourcePairing::new(&nearby_resources[i], townhall);
            let ghost before = self.mining_manager.role_table();
            let _ = self.mining_manager.add_role(role);
            proof {
                self.mining_manager.lemma_consistent();
                assert(roles_in_bounds(self.mining_manager.role_table())) by {
                    lemma_added_role_in_bounds(before, self.mining_manager.role_table(), role);
                }
            }
            i = i + 1;
        }
    }
}

/// Whether role `j` is one of the asset `tag` (or, `by_townhall`, one of the
/// townhall `tag`).
pub open spec fn role_matches(j: JobId, tag: u64, by_townhall: bool) -> bool {
    if by_townhall { j.townhall_tag == tag } else { j.resource_tag == tag }
}

/// The roles on file that match `tag`.
pub open spec fn matching_roles(roles: Map<JobId, ResourcePairing>, tag: u64, by_townhall: bool) -> Set<JobId> {
    roles.dom().filter(|j: JobId| role_matches(j, tag, by_townhall))
}

/// The assignments left when the roles `gone` are taken away.
pub open spec fn workers_off(a: Map<u64, JobId>, gone: Set<JobId>) -> Map<u64, JobId> {
    Map::new(|t: u64| a.dom().contains(t) && !gone.contains(a[t]), |t: u64| a[t])
}

/// A role looked up in the table lies within the map.
proof fn lemma_role_value_in_bounds(roles: Seq<(JobId, ResourcePairing)>, j: JobId)
    requires
        roles_in_bounds(roles),
        crate::keyed::as_map(roles).dom().contains(j),
    ensures
        in_bounds(crate::keyed::as_map(roles)[j].resource.location),
        in_bounds(crate::keyed::as_map(roles)[j].townhall.location),
{
    let k = choose|k: int| 0 <= k < roles.len() && #[trigger] roles[k].0 == j;
    assert(in_bounds(roles[k].1.resource.location));
}

/// Appends `more` to `out`; neither lists a tag twice nor do they share one.
fn append_tags(out: &mut Vec<u64>, more: &Vec<u64>)
    requires
        old(out)@.no_duplicates(),
        more@.no_duplicates(),
        forall|t: u64| #[trigger] old(out)@.contains(t) ==> !more@.contains(t),
    ensures
        final(out)@.no_duplicates(),
        forall|t: u64| #[trigger] final(out)@.contains(t) <==> old(out)@.contains(t) || more@.contains(t),
{
    let ghost before = out@;
    let mut m: usize = 0;
    while m < more.len()
        invariant
            m <= more@.len(),
            more@.no_duplicates(),
            forall|t: u64| #[trigger] before.contains(t) ==> !more@.contains(t),
            out@.no_duplicates(),
            forall|t: u64| #[trigger] out@.contains(t) <==> before.contains(t) || more@.subrange(0, m as int).contains(t),
        decreases more@.len() - m,
    {
        let t = more[m];
        proof {
            assert(more@.contains(t));
            if more@.subrange(0, m as int).contains(t) {
                let sub = more@.subrange(0, m as int);
                let w = choose|w: int| 0 <= w < sub.len() && sub[w] == t;
                assert(more@[w] == t);
            }
        }
        let ghost prev = out@;
        out.push(t);
        proof {
            assert forall|x: u64| #[trigger] out@.contains(x) <==> before.contains(x) || more@.subrange(0, m as int + 1).contains(x) by {
                if out@.contains(x) && x != t {
                    let w = choose|w: int| 0 <= w < out@.len() && out@[w] == x;
                    assert(prev[w] == x);
                }
                if more@.subrange(0, m as int + 1).contains(x) && x != t {
                    let sub = more@.subrange(0, m as int + 1);
                    let w = choose|w: int| 0 <= w < sub.len() && sub[w] == x;
                    assert(more@.subrange(0, m as int)[w] == x);
                }
                if prev.contains(x) {
                    let w = choose|w: int| 0 <= w < prev.len() && prev[w] == x;
                    assert(out@[w] == x);
                }
                if x == t {
                    assert(out@[out@.len() - 1] == t);
                    assert(more@.subrange(0, m as int + 1)[m as int] == t);
                }
            }
            assert forall|a: int, b: int| 0 <= a < out@.len() && 0 <= b < out@.len() && a != b implies out@[a] != out@[b] by {
                if a < prev.len() && b < prev.len() {
                    assert(out@[a] == prev[a] && out@[b] == prev[b]);
                } else if a < prev.len() {
                    assert(prev.contains(out@[a]));
                } else if b < prev.len() {
                    assert(prev.contains(out@[b]));
                }
            }
        }
        m = m + 1;
    }
    proof {
        assert(more@.subrange(0, more@.len() as int) =~= more@);
    }
}

impl MinerController {
    /// The identifiers of the roles on file that match `tag`, each once.
    fn role_ids_where(&self, tag: u64, by_townhall: bool) -> (ids: Vec<JobId>)
        requires
            self.wf(),
        ensures
            ids@.no_duplicates(),
            forall|j: JobId| #[trigger] ids@.contains(j) <==> matching_roles(self.mining_manager.roles_view(), tag, by_townhall).contains(j),
    {
        let all = self.mining_manager.get_role_ids();
        let mut ids: Vec<JobId> = Vec::new();
        let mut k: usize = 0;
        while k < all.len()
            invariant
                k <= all@.len(),
                all@.no_duplicates(),
                forall|j: JobId| #[trigger] all@.contains(j) <==> self.mining_manager.roles_view().dom().contains(j),
                ids@.no_duplicates(),
                forall|j: JobId| #[trigger] ids@.contains(j) <==> all@.subrange(0, k as int).contains(j) && role_matches(j, tag, by_townhall),
            decreases all@.len() - k,
        {
            let j = all[k];
            let hit = if by_townhall { j.townhall_tag == tag } else { j.resource_tag == tag };
            let ghost prev = ids@;
            if hit {
                proof {
                    if prev.contains(j) {
                        let sub = all@.subrange(0, k as int);
                        let w = choose|w: int| 0 <= w < sub.len() && sub[w] == j;
                        assert(all@[w] == all@[k as int]);
                    }
                }
                ids.push(j);
            }
            proof {
                assert forall|x: JobId| #[trigger] ids@.contains(x) <==> all@.subrange(0, k as int + 1).contains(x) && role_matches(x, tag, by_townhall) by {
                    if all@.subrange(0, k as int + 1).contains(x) && x != j {
                        let sub = all@.subrange(0, k as int + 1);
                        let w = choose|w: int| 0 <= w < sub.len() && sub[w] == x;
                        assert(all@.subrange(0, k as int)[w] == x);
                    }
                    if all@.subrange(0, k as int).contains(x) {
                        let sub = all@.subrange(0, k as int);
                        let w = choose|w: int| 0 <= w < sub.len() && sub[w] == x;
                        assert(all@.subrange(0, k as int + 1)[w] == x);
                    }
                    if x == j {
                        assert(all@.subrange(0, k as int + 1)[k as int] == j);
                    }
                    if hit && ids@.contains(x) && x != j {
                        let w = choose|w: int| 0 <= w < ids@.len() && ids@[w] == x;
                        assert(prev[w] == x);
                    }
                    if hit && prev.contains(x) {
                        let w = choose|w: int| 0 <= w < prev.len() && prev[w] == x;
                        assert(ids@[w] == x);
                    }
                    if hit && x == j {
                        assert(ids@[ids@.len() - 1] == j);
                    }
                }
                if hit {
                    assert forall|a: int, b: int| 0 <= a < ids@.len() && 0 <= b < ids@.len() && a != b implies ids@[a] != ids@[b] by {
                        if a < prev.len() && b < prev.len() {
                            assert(ids@[a] == prev[a] && ids@[b] == prev[b]);
                        } else if a < prev.len() {
                            assert(prev.contains(ids@[a]));
                        } else if b < prev.len() {
                            assert(prev.contains(ids@[b]));
                        }
                    }
                }
            }
            k = k + 1;
        }
        proof {
            assert(all@.subrange(0, all@.len() as int) =~= all@);
        }
        ids
    }

    /// Removes the roles `ids` and hands back the workers who held them.
    fn drop_roles(&mut self, ids: &Vec<JobId>) -> (unemployed: Vec<u64>)
        requires
            old(self).wf(),
        ensures
            final(self).wf(),
            final(self).mining_manager.roles_view() == old(self).mining_manager.roles_view().remove_keys(ids@.to_set()),
            final(self).mining_manager.assignments_view() == workers_off(old(self).mining_manager.assignments_view(), ids@.to_set()),
            final(self).mining_manager.assignees_view() == old(self).mining_manager.assignees_view(),
            unemployed@.no_duplicates(),
            forall|t: u64| #[trigger] unemployed@.contains(t) <==> old(self).mining_manager.assignments_view().dom().contains(t)
                && ids@.contains(old(self).mining_manager.assignments_view()[t]),
    {
        let ghost roles0 = self.mining_manager.roles_view();
        let ghost asg0 = self.mining_manager.assignments_view();
        let mut unemployed: Vec<u64> = Vec::new();
        let mut k: usize = 0;
        proof {
            assert(roles0.remove_keys(ids@.subrange(0, 0).to_set()) =~= roles0);
            assert(workers_off(asg0, ids@.subrange(0, 0).to_set()) =~= asg0);
        }
        while k < ids.len()
            invariant
                self.wf(),
                k <= ids@.len(),
                roles0 == old(self).mining_manager.roles_view(),
                asg0 == old(self).mining_manager.assignments_view(),
                self.mining_manager.roles_view() == roles0.remove_keys(ids@.subrange(0, k as int).to_set()),
                self.mining_manager.assignments_view() == workers_off(asg0, ids@.subrange(0, k as int).to_set()),
                self.mining_manager.assignees_view() == old(self).mining_manager.assignees_view(),
                unemployed@.no_duplicates(),
                forall|t: u64| #[trigger] unemployed@.contains(t) <==> asg0.dom().contains(t)
                    && ids@.subrange(0, k as int).contains(asg0[t]),
            decreases ids@.len() - k,
        {
            let j = ids[k];
            let ghost done = ids@.subrange(0, k as int).to_set();
            let ghost now = ids@.subrange(0, k as int + 1).to_set();
            proof {
                assert(now =~= done.insert(j)) by {
                    assert forall|x: JobId| now.contains(x) <==> done.contains(x) || x == j by {
                        if now.contains(x) && x != j {
                            let sub = ids@.subrange(0, k as int + 1);
                            let w = choose|w: int| 0 <= w < sub.len() && sub[w] == x;
                            assert(ids@.subrange(0, k as int)[w] == x);
                        }
                        if done.contains(x) {
                            let sub = ids@.subrange(0, k as int);
                            let w = choose|w: int| 0 <= w < sub.len() && sub[w] == x;
                            assert(ids@.subrange(0, k as int + 1)[w] == x);
                        }
                        if x == j {
                            assert(ids@.subrange(0, k as int + 1)[k as int] == j);
                        }
                    }
                }
                self.mining_manager.lemma_consistent();
            }
            let ghost mid = self.mining_manager.assignments_view();
            let r = self.mining_manager.remove_role(j);
            match r {
                Ok(had) => {
                    proof {
                        assert forall|t: u64| #[trigger] unemployed@.contains(t) implies !had@.contains(t) by {
                            assert(!mid.dom().contains(t));
                        }
                    }
                    append_tags(&mut unemployed, &had);
                    proof {
                        assert(self.mining_manager.assignments_view() =~= workers_off(asg0, now));
                        assert(self.mining_manager.roles_view() =~= roles0.remove_keys(now));
                        assert forall|t: u64| #[trigger] unemployed@.contains(t) <==> asg0.dom().contains(t)
                            && ids@.subrange(0, k as int + 1).contains(asg0[t]) by {
                            assert(ids@.subrange(0, k as int + 1).contains(asg0[t]) <==> now.contains(asg0[t]));
                            assert(ids@.subrange(0, k as int).contains(asg0[t]) <==> done.contains(asg0[t]));
                            if had@.contains(t) {
                                assert(mid.dom().contains(t) && mid[t] == j);
                            }
                            if asg0.dom().contains(t) && asg0[t] == j && !done.contains(j) {
                                assert(mid.dom().contains(t));
                            }
                        }
                    }
                },
                Err(_) => {
                    proof {
                        assert forall|t: u64| mid.dom().contains(t) implies mid[t] != j by {
                            assert(self.mining_manager.roles_view().dom().contains(mid[t]));
                        }
                        assert(self.mining_manager.assignments_view() =~= workers_off(asg0, now));
                        assert(self.mining_manager.roles_view() =~= roles0.remove_keys(now));
                        assert forall|t: u64| #[trigger] unemployed@.contains(t) <==> asg0.dom().contains(t)
                            && ids@.subrange(0, k as int + 1).contains(asg0[t]) by {
                            assert(ids@.subrange(0, k as int + 1).contains(asg0[t]) <==> now.contains(asg0[t]));
                            assert(ids@.subrange(0, k as int).contains(asg0[t]) <==> done.contains(asg0[t]));
                            if asg0.dom().contains(t) && asg0[t] == j && !done.contains(j) {
                                assert(mid.dom().contains(t));
                            }
                        }
                    }
                },
            }
            proof {
                let before = self.mining_manager.role_table();
                assert(roles_in_bounds(self.mining_manager.role_table()));
            }
            k = k + 1;
        }
        proof {
            assert(ids@.subrange(0, ids@.len() as int) =~= ids@);
        }
        unemployed
    }
}

impl MinerController {
    /// Removes the roles of the asset `resource_tag`; hands back, each once,
    /// the workers who held one of them.
    pub fn remove_resource(&mut self, resource_tag: u64) -> (unemployed: Vec<u64>)
        requires
            old(self).wf(),
        ensures
            final(self).wf(),
            final(self).mining_manager.roles_view() == old(self).mining_manager.roles_view().remove_keys(
                matching_roles(old(self).mining_manager.roles_view(), resource_tag, false)),
            final(self).mining_manager.assignments_view() == workers_off(old(self).mining_manager.assignments_view(),
                matching_roles(old(self).mining_manager.roles_view(), resource_tag, false)),
            final(self).mining_manager.assignees_view() == old(self).mining_manager.assignees_view(),
            unemployed@.no_duplicates(),
            forall|t: u64| #[trigger] unemployed@.contains(t) <==> old(self).mining_manager.assignments_view().dom().contains(t)
                && old(self).mining_manager.assignments_view()[t].resource_tag == resource_tag,
    {
        self.remove_matching(resource_tag, false)
    }

    /// Removes the roles of the townhall `townhall_tag`; hands back, each
    /// once, the workers who held one of them.
    pub fn remove_townhall(&mut self, townhall_tag: u64) -> (unemployed: Vec<u64>)
        requires
            old(self).wf(),
        ensures
            final(self).wf(),
            final(self).mining_manager.roles_view() == old(self).mining_manager.roles_view().remove_keys(
                matching_roles(old(self).mining_manager.roles_view(), townhall_tag, true)),
            final(self).mining_manager.assignments_view() == workers_off(old(self).mining_manager.assignments_view(),
                matching_roles(old(self).mining_manager.roles_view(), townhall_tag, true)),
            final(self).mining_manager.assignees_view() == old(self).mining_manager.assignees_view(),
            unemployed@.no_duplicates(),
            forall|t: u64| #[trigger] unemployed@.contains(t) <==> old(self).mining_manager.assignments_view().dom().contains(t)
                && old(self).mining_manager.assignments_view()[t].townhall_tag == townhall_tag,
    {
        self.remove_matching(townhall_tag, true)
    }

    /// Removes the roles that match `tag`; hands back the workers who held one.
    fn remove_matching(&mut self, tag: u64, by_townhall: bool) -> (unemployed: Vec<u64>)
        requires
            old(self).wf(),
        ensures
            final(self).wf(),
            final(self).mining_manager.roles_view() == old(self).mining_manager.roles_view().remove_keys(
                matching_roles(old(self).mining_manager.roles_view(), tag, by_townhall)),
            final(self).mining_manager.assignments_view() == workers_off(old(self).mining_manager.assignments_view(),
                matching_roles(old(self).mining_manager.roles_view(), tag, by_townhall)),
            final(self).mining_manager.assignees_view() == old(self).mining_manager.assignees_view(),
            unemployed@.no_duplicates(),
            forall|t: u64| #[trigger] unemployed@.contains(t) <==> old(self).mining_manager.assignments_view().dom().contains(t)
                && role_matches(old(self).mining_manager.assignments_view()[t], tag, by_townhall),
    {
        let ids = self.role_ids_where(tag, by_townhall);
        let ghost gone = matching_roles(self.mining_manager.roles_view(), tag, by_townhall);
        proof {
            assert(ids@.to_set() =~= gone);
            self.mining_manager.lemma_consistent();
        }
        let ghost asg0 = self.mining_manager.assignments_view();
        let unemployed = self.drop_roles(&ids);
        proof {
            assert forall|t: u64| #[trigger] unemployed@.contains(t) <==> asg0.dom().contains(t)
                && role_matches(asg0[t], tag, by_townhall) by {
                if asg0.dom().contains(t) {
                    assert(ids@.contains(asg0[t]) <==> gone.contains(asg0[t]));
                }
            }
        }
        unemployed
    }

    /// Moves the roles of `resource` to `nearest_townhall`: the roles of that
    /// asset are removed, their workers left without a role, and the role of
    /// mining it for `nearest_townhall` is filed.
    pub fn add_resource(&mut self, resource: &UnitSnapshot, nearest_townhall: &UnitSnapshot)
        requires
            old(self).wf(),
            in_bounds(resource.position),
            in_bounds(nearest_townhall.position),
        ensures
            final(self).wf(),
            final(self).mining_manager.roles_view() == old(self).mining_manager.roles_view().remove_keys(
                matching_roles(old(self).mining_manager.roles_view(), resource.tag, false)).insert(
                pairing_of(*resource, *nearest_townhall).identity(), pairing_of(*resource, *nearest_townhall)),
            final(self).mining_manager.assignments_view() == workers_off(old(self).mining_manager.assignments_view(),
                matching_roles(old(self).mining_manager.roles_view(), resource.tag, false)),
            final(self).mining_manager.assignees_view() == old(self).mining_manager.assignees_view(),
    {
        let _ = self.remove_matching(resource.tag, false);
        let new_resource = ResourcePairing::new(resource, nearest_townhall);
        let ghost before = self.mining_manager.role_table();
        let r = self.mining_manager.add_role(new_resource);
        proof {
            assert(r is Ok);
            lemma_added_role_in_bounds(before, self.mining_manager.role_table(), new_resource);
        }
    }
}

/// Whether a role is one of gas (`gas`) or of minerals (`!gas`).
pub open spec fn of_kind(p: ResourcePairing, gas: bool) -> bool {
    (p.resource.asset_type == AssetType::Gas) == gas
}

/// How many roles of the table are of the kind.
pub open spec fn fields_of_kind(roles: Seq<(JobId, ResourcePairing)>, gas: bool) -> nat
    decreases roles.len(),
{
    if roles.len() == 0 {
        0
    } else {
        fields_of_kind(roles.drop_last(), gas) + if of_kind(roles.last().1, gas) { 1nat } else { 0nat }
    }
}

/// How many workers hold a role of the kind.
pub open spec fn jobs_of_kind(roles: Seq<(JobId, ResourcePairing)>, asg: Seq<(u64, JobId)>, gas: bool) -> nat
    decreases roles.len(),
{
    if roles.len() == 0 {
        0
    } else {
        jobs_of_kind(roles.drop_last(), asg, gas) + if of_kind(roles.last().1, gas) {
            count_with_role(asg, roles.last().0)
        } else {
            0nat
        }
    }
}

/// How many roles of the kind are filed under `j`.
spec fn kind_hits(roles: Seq<(JobId, ResourcePairing)>, j: JobId, gas: bool) -> nat
    decreases roles.len(),
{
    if roles.len() == 0 {
        0
    } else {
        kind_hits(roles.drop_last(), j, gas) + if of_kind(roles.last().1, gas) && roles.last().0 == j { 1nat } else { 0nat }
    }
}

/// With each identifier filed once, at most one role is filed under `j`.
proof fn lemma_kind_hits_at_most_one(roles: Seq<(JobId, ResourcePairing)>, j: JobId, gas: bool)
    requires
        crate::keyed::keys_distinct(roles),
    ensures
        kind_hits(roles, j, gas) <= 1,
        kind_hits(roles, j, gas) == 1 ==> exists|k: int| 0 <= k < roles.len() && #[trigger] roles[k].0 == j,
    decreases roles.len(),
{
    if roles.len() > 0 {
        let rest = roles.drop_last();
        assert(crate::keyed::keys_distinct(rest)) by {
            assert forall|a: int, b: int| 0 <= a < rest.len() && 0 <= b < rest.len() && a != b implies #[trigger] rest[a].0 != #[trigger] rest[b].0 by {
                assert(rest[a] == roles[a] && rest[b] == roles[b]);
            }
        }
        lemma_kind_hits_at_most_one(rest, j, gas);
        if kind_hits(rest, j, gas) == 1 {
            let k = choose|k: int| 0 <= k < rest.len() && #[trigger] rest[k].0 == j;
            assert(roles[k].0 == j);
            if roles.last().0 == j {
                assert(roles[roles.len() - 1].0 == roles[k].0);
            }
        }
        if roles.last().0 == j {
            assert(roles[roles.len() - 1].0 == j);
        }
    }
}

/// One more record adds the roles filed under its role to the workers.
proof fn lemma_jobs_push(roles: Seq<(JobId, ResourcePairing)>, asg: Seq<(u64, JobId)>, e: (u64, JobId), gas: bool)
    ensures
        jobs_of_kind(roles, asg.push(e), gas) == jobs_of_kind(roles, asg, gas) + kind_hits(roles, e.1, gas),
    decreases roles.len(),
{
    if roles.len() > 0 {
        lemma_jobs_push(roles.drop_last(), asg, e, gas);
        assert(asg.push(e).drop_last() =~= asg);
    }
}

/// With no record, no role is held.
proof fn lemma_jobs_empty(roles: Seq<(JobId, ResourcePairing)>, gas: bool)
    ensures
        jobs_of_kind(roles, Seq::empty(), gas) == 0,
    decreases roles.len(),
{
    if roles.len() > 0 {
        lemma_jobs_empty(roles.drop_last(), gas);
    }
}

/// With each role filed once, no more workers hold a role of a kind than
/// there are records.
proof fn lemma_jobs_bounded(roles: Seq<(JobId, ResourcePairing)>, asg: Seq<(u64, JobId)>, gas: bool)
    requires
        crate::keyed::keys_distinct(roles),
    ensures
        jobs_of_kind(roles, asg, gas) <= asg.len(),
    decreases asg.len(),
{
    if asg.len() == 0 {
        lemma_jobs_empty(roles, gas);
        assert(asg =~= Seq::<(u64, JobId)>::empty());
    } else {
        let rest = asg.drop_last();
        lemma_jobs_bounded(roles, rest, gas);
        lemma_jobs_push(roles, rest, asg.last(), gas);
        lemma_kind_hits_at_most_one(roles, asg.last().1, gas);
        assert(rest.push(asg.last()) =~= asg);
    }
}

/// Jobs and fields over a prefix of the table one longer.
proof fn lemma_kind_step(roles: Seq<(JobId, ResourcePairing)>, asg: Seq<(u64, JobId)>, i: int, gas: bool)
    requires
        0 <= i < roles.len(),
    ensures
        jobs_of_kind(roles.subrange(0, i + 1), asg, gas) == jobs_of_kind(roles.subrange(0, i), asg, gas)
            + if of_kind(roles[i].1, gas) { count_with_role(asg, roles[i].0) } else { 0nat },
        fields_of_kind(roles.subrange(0, i + 1), gas) == fields_of_kind(roles.subrange(0, i), gas)
            + if of_kind(roles[i].1, gas) { 1nat } else { 0nat },
{
    assert(roles.subrange(0, i + 1).drop_last() =~= roles.subrange(0, i));
}

impl MinerController {
    /// The one-line summary `M:jobs:fields G:jobs:buildings`: how many workers
    /// hold a mineral role and how many mineral roles there are, then the same
    /// for gas.
    pub fn to_text(&self) -> (s: String)
        requires
            self.wf(),
        ensures
            s@ == "M:"@ + decimal_chars(jobs_of_kind(self.mining_manager.role_table(), self.mining_manager.assignment_table(), false))
                + ":"@ + decimal_chars(fields_of_kind(self.mining_manager.role_table(), false))
                + " G:"@ + decimal_chars(jobs_of_kind(self.mining_manager.role_table(), self.mining_manager.assignment_table(), true))
                + ":"@ + decimal_chars(fields_of_kind(self.mining_manager.role_table(), true)),
    {
        let ghost roles = self.mining_manager.role_table();
        let ghost asg = self.mining_manager.assignment_table();
        proof {
            self.mining_manager.lemma_tables_distinct();
        }
        let counts = self.saturation();
        let mut total_gas_jobs: usize = 0;
        let mut total_minerals_jobs: usize = 0;
        let mut gas_buildings: usize = 0;
        let mut mineral_fields: usize = 0;
        let mut i: usize = 0;
        proof {
            assert(roles.subrange(0, 0).len() == 0);
        }
        while i < counts.len()
            invariant
                i <= counts@.len(),
                counts@.len() == roles.len(),
                crate::keyed::keys_distinct(roles),
                asg == self.mining_manager.assignment_table(),
                forall|k: int| 0 <= k < counts@.len() ==> *(#[trigger] counts@[k]).0 == roles[k].1
                    && counts@[k].1 == count_with_role(asg, roles[k].0),
                total_gas_jobs == jobs_of_kind(roles.subrange(0, i as int), asg, true),
                total_minerals_jobs == jobs_of_kind(roles.subrange(0, i as int), asg, false),
                gas_buildings == fields_of_kind(roles.subrange(0, i as int), true),
                mineral_fields == fields_of_kind(roles.subrange(0, i as int), false),
                gas_buildings <= i,
                mineral_fields <= i,
            decreases counts@.len() - i,
        {
            let pair = counts[i].0;
            let count = counts[i].1;
            proof {
                lemma_kind_step(roles, asg, i as int, true);
                lemma_kind_step(roles, asg, i as int, false);
                let pre = roles.subrange(0, i as int + 1);
                assert(crate::keyed::keys_distinct(pre)) by {
                    assert forall|a: int, b: int| 0 <= a < pre.len() && 0 <= b < pre.len() && a != b implies #[trigger] pre[a].0 != #[trigger] pre[b].0 by {
                        assert(pre[a] == roles[a] && pre[b] == roles[b]);
                    }
                }
                lemma_jobs_bounded(pre, asg, true);
                lemma_jobs_bounded(pre, asg, false);
                assert(asg.len() <= usize::MAX) by {
                    self.mining_manager.lemma_assignment_table_fits();
                }
            }
            if pair.is_gas() {
                gas_buildings = gas_buildings + 1;
                total_gas_jobs = total_gas_jobs + count;
            } else {
                mineral_fields = mineral_fields + 1;
                total_minerals_jobs = total_minerals_jobs + count;
            }
            i = i + 1;
        }
        proof {
            assert(roles.subrange(0, roles.len() as int) =~= roles);
        }
        let mut s = String::from_str("M:");
        push_decimal(&mut s, total_minerals_jobs);
        s.append(":");
        push_decimal(&mut s, mineral_fields);
        s.append(" G:");
        push_decimal(&mut s, total_gas_jobs);
        s.append(":");
        push_decimal(&mut s, gas_buildings);
        s
    }
}

/// The updated workers read off `data`, in its order: each observed worker
/// that is on file and holds a role, observed anew and with its gathering
/// state moved on.
pub open spec fn peon_updates(
    data: Seq<UnitSnapshot>,
    assignees: Map<u64, Miner>,
    assignments: Map<u64, JobId>,
    roles: Map<JobId, ResourcePairing>,
) -> Seq<Miner>
    decreases data.len(),
{
    if data.len() == 0 {
        Seq::empty()
    } else {
        let rest = peon_updates(data.drop_last(), assignees, assignments, roles);
        let u = data.last();
        if assignees.dom().contains(u.tag) && assignments.dom().contains(u.tag) && roles.dom().contains(assignments[u.tag]) {
            let seen = Miner { worker_tag: u.tag, state: assignees[u.tag].state, holding_resource: u.is_carrying_resource, position: u.position };
            rest.push(Miner {
                worker_tag: u.tag,
                state: next_micro_state(as_snapshot(seen), seen.state, as_assignment(roles[assignments[u.tag]])),
                holding_resource: u.is_carrying_resource,
                position: u.position,
            })
        } else {
            rest
        }
    }
}

/// The workers on file after the updates are filed in order; an update for
/// a worker not on file is dropped.
pub open spec fn applied(assignees: Map<u64, Miner>, updates: Seq<Miner>) -> Map<u64, Miner>
    decreases updates.len(),
{
    if updates.len() == 0 {
        assignees
    } else {
        let before = applied(assignees, updates.drop_last());
        let u = updates.last();
        if before.dom().contains(u.worker_tag) { before.insert(u.worker_tag, u) } else { before }
    }
}

/// The order for each worker that is on file and holds a role, in the order
/// of the assignment records.
pub open spec fn commands_for(pairs: Seq<(Miner, ResourcePairing)>) -> Seq<(u64, MiningCommand)> {
    pairs.map_values(|p: (Miner, ResourcePairing)| (p.0.worker_tag, mining_command_for(p.0.state, p.1)))
}

impl Commands<MiningCommand, Miner, u64, Vec<UnitSnapshot>> for MinerController {
    open spec fn commands_ready(&self) -> bool {
        self.wf()
    }

    fn get_peon_updates(&mut self, data: &Vec<UnitSnapshot>) -> (updates: Vec<Miner>)
        ensures
            *final(self) == *old(self),
            updates@ == peon_updates(data@, old(self).mining_manager.assignees_view(), old(self).mining_manager.assignments_view(),
                old(self).mining_manager.roles_view()),
    {
        let ghost av = self.mining_manager.assignees_view();
        let ghost asv = self.mining_manager.assignments_view();
        let ghost rv = self.mining_manager.roles_view();
        proof {
            self.mining_manager.lemma_consistent();
        }
        let mut updates: Vec<Miner> = Vec::new();
        let mut k: usize = 0;
        while k < data.len()
            invariant
                self.wf(),
                *self == *old(self),
                av == self.mining_manager.assignees_view(),
                asv == self.mining_manager.assignments_view(),
                rv == self.mining_manager.roles_view(),
                forall|i: u64| #[trigger] asv.dom().contains(i) ==> rv.dom().contains(asv[i]),
                k <= data@.len(),
                updates@ == peon_updates(data@.subrange(0, k as int), av, asv, rv),
            decreases data@.len() - k,
        {
            let unit = &data[k];
            proof {
                assert(data@.subrange(0, k as int + 1).drop_last() =~= data@.subrange(0, k as int));
                assert(data@.subrange(0, k as int + 1).last() == data@[k as int]);
            }
            match (self.mining_manager.get_assignee(unit.tag), self.mining_manager.get_assignment(unit.tag)) {
                (Ok(last_observation), Ok(last_assignment)) => {
                    proof {
                        lemma_role_value_in_bounds(self.mining_manager.role_table(), asv[unit.tag]);
                    }
                    let this_observation = Miner::update(unit, last_observation.state);
                    let new_state = worker_update(&this_observation, last_assignment);
                    updates.push(Miner::update(unit, new_state));
                },
                _ => {},
            }
            k = k + 1;
        }
        proof {
            assert(data@.subrange(0, data@.len() as int) =~= data@);
        }
        updates
    }

    fn apply_peon_updates(&mut self, updates: Vec<Miner>)
        ensures
            final(self).mining_manager.assignees_view() == applied(old(self).mining_manager.assignees_view(), updates@),
            final(self).mining_manager.roles_view() == old(self).mining_manager.roles_view(),
            final(self).mining_manager.assignments_view() == old(self).mining_manager.assignments_view(),
    {
        let mut k: usize = 0;
        while k < updates.len()
            invariant
                self.wf(),
                k <= updates@.len(),
                self.mining_manager.assignees_view() == applied(old(self).mining_manager.assignees_view(), updates@.subrange(0, k as int)),
                self.mining_manager.roles_view() == old(self).mining_manager.roles_view(),
                self.mining_manager.assignments_view() == old(self).mining_manager.assignments_view(),
            decreases updates@.len() - k,
        {
            let up = updates[k];
            proof {
                assert(updates@.subrange(0, k as int + 1).drop_last() =~= updates@.subrange(0, k as int));
                assert(updates@.subrange(0, k as int + 1).last() == updates@[k as int]);
            }
            let _ = self.mining_manager.update_assignee(up.id(), up);
            k = k + 1;
        }
        proof {
            assert(updates@.subrange(0, updates@.len() as int) =~= updates@);
        }
    }

    fn issue_commands(&self) -> (commands: Vec<(u64, MiningCommand)>)
        ensures
            commands@ == commands_for(paired(self.mining_manager.assignees_view(), self.mining_manager.roles_view(),
                self.mining_manager.assignment_table())),
    {
        let ghost pairs = paired(self.mining_manager.assignees_view(), self.mining_manager.roles_view(),
            self.mining_manager.assignment_table());
        let held = self.mining_manager.iter();
        let mut commands: Vec<(u64, MiningCommand)> = Vec::new();
        let mut k: usize = 0;
        while k < held.len()
            invariant
                k <= held@.len(),
                held@.len() == pairs.len(),
                forall|m: int| 0 <= m < held@.len() ==> *(#[trigger] held@[m]).0 == pairs[m].0 && *held@[m].1 == pairs[m].1,
                commands@ == commands_for(pairs.subrange(0, k as int)),
            decreases held@.len() - k,
        {
            let (miner, role) = held[k];
            commands.push((miner.id(), worker_micro(miner, role)));
            proof {
                assert(commands_for(pairs.subrange(0, k as int + 1)) =~= commands_for(pairs.subrange(0, k as int)).push(
                    (pairs[k as int].0.worker_tag, mining_command_for(pairs[k as int].0.state, pairs[k as int].1))));
            }
            k = k + 1;
        }
        proof {
            assert(pairs.subrange(0, pairs.len() as int) =~= pairs);
        }
        commands
    }
}

impl Default for MinerController {
    /// An empty mining table.
    fn default() -> (c: Self)
        ensures
            c.wf(),
            c.mining_manager.assignees_view() == Map::<u64, Miner>::empty(),
            c.mining_manager.roles_view() == Map::<JobId, ResourcePairing>::empty(),
            c.mining_manager.assignments_view() == Map::<u64, JobId>::empty(),
    {
        let c = MinerController { mining_manager: AssignmentManager::default() };
        proof {
            assert(c.mining_manager.role_table().len() == 0) by {
                if c.mining_manager.role_table().len() > 0 {
                    c.mining_manager.lemma_tables_distinct();
                    crate::keyed::lemma_as_map_index(c.mining_manager.role_table(), 0);
                }
            }
        }
        c
    }
}

/// A role table that grew by at most the role `role`, placed within the
/// map, keeps every role within the map.
proof fn lemma_added_role_in_bounds(before: Seq<(JobId, ResourcePairing)>, after: Seq<(JobId, ResourcePairing)>, role: ResourcePairing)
    requires
        roles_in_bounds(before),
        in_bounds(role.resource.location),
        in_bounds(role.townhall.location),
        forall|k: int| 0 <= k < after.len() ==> (#[trigger] after[k]).1 == role || before.contains(after[k]),
    ensures
        roles_in_bounds(after),
{
    assert forall|k: int| 0 <= k < after.len() implies in_bounds((#[trigger] after[k]).1.resource.location)
        && in_bounds(after[k].1.townhall.location) by {
        if after[k].1 != role {
            let j = before.index_of(after[k]);
            assert(before[j] == after[k]);
        }
    }
}


/// The role a new worker is given has room for it, and no role before it in
/// the table has.
pub proof fn law_new_worker_gets_first_free_role(roles: Seq<(JobId, ResourcePairing)>, asg: Seq<(u64, JobId)>, from: int)
    requires
        0 <= from,
    ensures
        first_open(roles, asg, from) matches Some(k) ==> from <= k < roles.len()
            && has_room(roles[k].1, count_with_role(asg, roles[k].0))
            && forall|m: int| from <= m < k ==> !has_room(#[trigger] roles[m].1, count_with_role(asg, roles[m].0)),
        first_open(roles, asg, from) is None ==> forall|m: int| from <= m < roles.len()
            ==> !has_room(#[trigger] roles[m].1, count_with_role(asg, roles[m].0)),
    decreases roles.len() - from,
{
    if from < roles.len() && !has_room(roles[from].1, count_with_role(asg, roles[from].0)) {
        law_new_worker_gets_first_free_role(roles, asg, from + 1);
    }
}

/// After the roles `gone` are taken away, no worker holds one of them, and
/// every other worker keeps the role it had.
pub proof fn law_removed_roles_unheld(before: Map<u64, JobId>, gone: Set<JobId>)
    ensures
        forall|t: u64| #[trigger] workers_off(before, gone).dom().contains(t) ==> !gone.contains(workers_off(before, gone)[t])
            && before.dom().contains(t) && workers_off(before, gone)[t] == before[t],
        forall|t: u64| #[trigger] before.dom().contains(t) && !gone.contains(before[t]) ==> workers_off(before, gone).dom().contains(t),
{
}

} // verus!
