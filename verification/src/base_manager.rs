//! A base of the bot's own: its nexus, the workers it looks after, its
//! mineral fields and its geysers.
use crate::bot::{closest_worker, lemma_nearest_unique, nearest_worker};
use crate::errors::{BuildError, UnitEmploymentError};
use crate::geometry::{dist2, distance_squared, Point};
use crate::nearest::{closest_index, nearest_at};
use crate::siting::{status_can_build, BuildingStatus, PylonPower};
use crate::text::{decimal_chars, push_decimal, push_decimal_u64};
use crate::unit_types as ut;
use crate::units::{Tag, UnitSnapshot};
use vstd::prelude::*;

verus! {

/// A geyser of a base and what stands on it.
#[derive(Debug, Clone, Copy, PartialEq, Eq, Structural)]
pub struct GasLocation {
    pub geyser_tag: u64,
    pub location: Point,
    pub status: BuildingStatus,
}

/// Whether a status says the building `building` stands or is going up.
pub open spec fn holds_building(status: BuildingStatus, building: Tag) -> bool {
    match status {
        BuildingStatus::Built(t, _) => t == building,
        BuildingStatus::Constructing(t, _) => t == building,
        _ => false,
    }
}

/// The free, unpowered status a geyser starts with, meant for an assimilator.
pub open spec fn free_geyser_status() -> BuildingStatus {
    BuildingStatus::Free(Some(ut::ASSIMILATOR), PylonPower::Depowered)
}

impl GasLocation {
    /// The geyser `unit`, free for an assimilator.
    pub fn from_unit(unit: &UnitSnapshot) -> (g: GasLocation)
        ensures
            g == (GasLocation { geyser_tag: unit.tag, location: unit.position, status: free_geyser_status() }),
    {
        GasLocation {
            geyser_tag: unit.tag,
            location: unit.position,
            status: BuildingStatus::Free(Some(ut::ASSIMILATOR), PylonPower::Depowered),
        }
    }

    /// Whether the building `building` stands or is going up on this geyser.
    pub fn is_here(&self, building: &Tag) -> (b: bool)
        ensures
            b == holds_building(self.status, *building),
    {
        match self.status {
            BuildingStatus::Built(tag, _) | BuildingStatus::Constructing(tag, _) => *building == tag,
            _ => false,
        }
    }
}

/// A base: its nexus, name and place, the workers, mineral fields and
/// geysers it looks after.
#[derive(Debug)]
pub struct BaseManager {
    pub nexus: BuildingStatus,
    pub name: String,
    pub location: Point,
    workers: Vec<Tag>,
    minerals: Vec<Tag>,
    geysers: Vec<GasLocation>,
}

/// Whether a tag differs from `x`.
pub open spec fn differs(x: Tag) -> spec_fn(Tag) -> bool {
    |t: Tag| t != x
}

/// `s` without the entries equal to `x`, in order.
pub open spec fn without(s: Seq<Tag>, x: Tag) -> Seq<Tag> {
    s.filter(differs(x))
}

/// The first geyser, from position `from` on, that `pick` accepts.
pub open spec fn first_geyser(geysers: Seq<GasLocation>, pick: spec_fn(GasLocation) -> bool, from: int) -> Option<int>
    decreases geysers.len() - from,
{
    if from < 0 || from >= geysers.len() {
        None
    } else if pick(geysers[from]) {
        Some(from)
    } else {
        first_geyser(geysers, pick, from + 1)
    }
}

/// The geysers with the one the first `pick` accepts given `status`; the
/// same geysers when it accepts none.
pub open spec fn geysers_after(geysers: Seq<GasLocation>, pick: spec_fn(GasLocation) -> bool, status: BuildingStatus) -> Seq<GasLocation> {
    match first_geyser(geysers, pick, 0) {
        Some(k) => geysers.update(k, GasLocation { status, ..geysers[k] }),
        None => geysers,
    }
}

/// Whether a geyser stands at `p`.
pub open spec fn geyser_at(p: Point) -> spec_fn(GasLocation) -> bool {
    |g: GasLocation| g.location == p
}

/// Whether the building `b` stands or goes up on a geyser.
pub open spec fn geyser_holding(b: Tag) -> spec_fn(GasLocation) -> bool {
    |g: GasLocation| holds_building(g.status, b)
}

/// Whether a geyser is free for an assimilator.
pub open spec fn geyser_free() -> spec_fn(GasLocation) -> bool {
    |g: GasLocation| status_can_build(g.status, ut::ASSIMILATOR)
}

/// The refusal for a unit a base cannot take on.
pub open spec fn employment_refusal() -> Seq<char> {
    "Unable to employ unit_tag at BaseManager"@
}

/// `first_geyser` finds a geyser `pick` accepts, and none before it.
proof fn lemma_first_geyser(geysers: Seq<GasLocation>, pick: spec_fn(GasLocation) -> bool, from: int)
    requires
        0 <= from,
    ensures
        first_geyser(geysers, pick, from) matches Some(k) ==> from <= k < geysers.len() && pick(geysers[k])
            && forall|m: int| from <= m < k ==> !pick(#[trigger] geysers[m]),
        first_geyser(geysers, pick, from) is None ==> forall|m: int| from <= m < geysers.len() ==> !pick(#[trigger] geysers[m]),
    decreases geysers.len() - from,
{
    if from < geysers.len() && !pick(geysers[from]) {
        lemma_first_geyser(geysers, pick, from + 1);
    }
}

impl BaseManager {
    /// The workers the base looks after, in the order they came.
    pub closed spec fn workers_view(&self) -> Seq<Tag> {
        self.workers@
    }

    /// The mineral fields of the base.
    pub closed spec fn minerals_view(&self) -> Seq<Tag> {
        self.minerals@
    }

    /// The geysers of the base.
    pub closed spec fn geysers_view(&self) -> Seq<GasLocation> {
        self.geysers@
    }

    /// The nexus's status.
    pub closed spec fn nexus_status(&self) -> BuildingStatus {
        self.nexus
    }

    /// The base's name.
    pub closed spec fn name_view(&self) -> Seq<char> {
        self.name@
    }

    /// Where the base is.
    pub closed spec fn place(&self) -> Point {
        self.location
    }

    /// A base for a finished nexus at `location`, named `name`, with the
    /// mineral fields and geysers found there; no workers yet.
    pub fn new(nexus: &UnitSnapshot, location: Point, minerals: &Vec<UnitSnapshot>, geysers: &Vec<UnitSnapshot>, name: String) -> (b: BaseManager)
        ensures
            b.nexus_status() == BuildingStatus::Built(Tag { tag: nexus.tag, unit_type: nexus.unit_type }, PylonPower::Depowered),
            b.place() == location,
            b.name_view() == name@,
            b.workers_view() == Seq::<Tag>::empty(),
            b.minerals_view() == minerals@.map_values(|u: UnitSnapshot| Tag { tag: u.tag, unit_type: u.unit_type }),
            b.geysers_view() == geysers@.map_values(|u: UnitSnapshot| GasLocation { geyser_tag: u.tag, location: u.position, status: free_geyser_status() }),
    {
        let mut mineral_tags: Vec<Tag> = Vec::new();
        let mut i: usize = 0;
        while i < minerals.len()
            invariant
                i <= minerals@.len(),
                mineral_tags@ == minerals@.subrange(0, i as int).map_values(|u: UnitSnapshot| Tag { tag: u.tag, unit_type: u.unit_type }),
            decreases minerals@.len() - i,
        {
            mineral_tags.push(Tag::from_unit(&minerals[i]));
            proof {
                assert(minerals@.subrange(0, i as int + 1).map_values(|u: UnitSnapshot| Tag { tag: u.tag, unit_type: u.unit_type })
                    =~= minerals@.subrange(0, i as int).map_values(|u: UnitSnapshot| Tag { tag: u.tag, unit_type: u.unit_type })
                        .push(Tag { tag: minerals@[i as int].tag, unit_type: minerals@[i as int].unit_type }));
            }
            i = i + 1;
        }
        let mut gas: Vec<GasLocation> = Vec::new();
        let mut j: usize = 0;
        while j < geysers.len()
            invariant
                j <= geysers@.len(),
                gas@ == geysers@.subrange(0, j as int).map_values(|u: UnitSnapshot| GasLocation { geyser_tag: u.tag, location: u.position, status: free_geyser_status() }),
            decreases geysers@.len() - j,
        {
            gas.push(GasLocation::from_unit(&geysers[j]));
            proof {
                assert(geysers@.subrange(0, j as int + 1).map_values(|u: UnitSnapshot| GasLocation { geyser_tag: u.tag, location: u.position, status: free_geyser_status() })
                    =~= geysers@.subrange(0, j as int).map_values(|u: UnitSnapshot| GasLocation { geyser_tag: u.tag, location: u.position, status: free_geyser_status() })
                        .push(GasLocation { geyser_tag: geysers@[j as int].tag, location: geysers@[j as int].position, status: free_geyser_status() }));
            }
            j = j + 1;
        }
        proof {
            assert(minerals@.subrange(0, minerals@.len() as int) =~= minerals@);
            assert(geysers@.subrange(0, geysers@.len() as int) =~= geysers@);
        }
        BaseManager {
            nexus: BuildingStatus::Built(Tag::from_unit(nexus), PylonPower::Depowered),
            name,
            location,
            workers: Vec::new(),
            minerals: mineral_tags,
            geysers: gas,
        }
    }

    /// Takes a probe on as a worker of the base; refuses any other unit.
    pub fn assign_unit(&mut self, unit: &UnitSnapshot) -> (r: Result<(), UnitEmploymentError>)
        ensures
            unit.unit_type == ut::PROBE ==> r is Ok
                && final(self).workers_view() == old(self).workers_view().push(Tag { tag: unit.tag, unit_type: unit.unit_type }),
            unit.unit_type != ut::PROBE ==> (r matches Err(e) && e.0@ == employment_refusal())
                && final(self).workers_view() == old(self).workers_view(),
            final(self).minerals_view() == old(self).minerals_view(),
            final(self).geysers_view() == old(self).geysers_view(),
            final(self).nexus_status() == old(self).nexus_status(),
            final(self).place() == old(self).place(),
    {
        let unit_tag = Tag::from_unit(unit);
        if unit_tag.unit_type == ut::PROBE {
            self.workers.push(unit_tag);
            Ok(())
        } else {
            Err(UnitEmploymentError(String::from_str("Unable to employ unit_tag at BaseManager")))
        }
    }

    /// Lets a unit of the base go: a nexus leaves its site free for a nexus,
    /// a probe leaves the workers, a mineral field the fields, an
    /// assimilator its geyser. Refuses any other unit, and an assimilator on
    /// none of the geysers.
    pub fn unassign_unit(&mut self, unit_tag: &Tag) -> (r: Result<(), UnitEmploymentError>)
        ensures
            final(self).place() == old(self).place(),
            unit_tag.unit_type == ut::NEXUS ==> r is Ok
                && final(self).nexus_status() == BuildingStatus::Free(Some(ut::NEXUS), PylonPower::Depowered)
                && final(self).workers_view() == old(self).workers_view()
                && final(self).minerals_view() == old(self).minerals_view()
                && final(self).geysers_view() == old(self).geysers_view(),
            unit_tag.unit_type == ut::PROBE ==> r is Ok
                && final(self).workers_view() == without(old(self).workers_view(), *unit_tag)
                && final(self).nexus_status() == old(self).nexus_status()
                && final(self).minerals_view() == old(self).minerals_view()
                && final(self).geysers_view() == old(self).geysers_view(),
            (unit_tag.unit_type == ut::MINERAL_FIELD || unit_tag.unit_type == ut::MINERAL_FIELD_750) ==> r is Ok
                && final(self).minerals_view() == without(old(self).minerals_view(), *unit_tag)
                && final(self).nexus_status() == old(self).nexus_status()
                && final(self).workers_view() == old(self).workers_view()
                && final(self).geysers_view() == old(self).geysers_view(),
            (unit_tag.unit_type == ut::ASSIMILATOR || unit_tag.unit_type == ut::ASSIMILATOR_RICH) ==> ({
                let pick = geyser_holding(*unit_tag);
                &&& final(self).geysers_view() == geysers_after(old(self).geysers_view(), pick, free_geyser_status())
                &&& (r is Ok <==> first_geyser(old(self).geysers_view(), pick, 0) is Some)
                &&& final(self).nexus_status() == old(self).nexus_status()
                &&& final(self).workers_view() == old(self).workers_view()
                &&& final(self).minerals_view() == old(self).minerals_view()
            }),
            !(unit_tag.unit_type == ut::NEXUS || unit_tag.unit_type == ut::PROBE || unit_tag.unit_type == ut::MINERAL_FIELD
                || unit_tag.unit_type == ut::MINERAL_FIELD_750 || unit_tag.unit_type == ut::ASSIMILATOR
                || unit_tag.unit_type == ut::ASSIMILATOR_RICH) ==> (r matches Err(e) && e.0@ == employment_refusal())
                && final(self).nexus_status() == old(self).nexus_status()
                && final(self).workers_view() == old(self).workers_view()
                && final(self).minerals_view() == old(self).minerals_view()
                && final(self).geysers_view() == old(self).geysers_view(),
    {
        let t = unit_tag.unit_type;
        if t == ut::NEXUS {
            self.nexus = BuildingStatus::Free(Some(ut::NEXUS), PylonPower::Depowered);
            Ok(())
        } else if t == ut::PROBE {
            retain_others(&mut self.workers, *unit_tag);
            Ok(())
        } else if t == ut::MINERAL_FIELD || t == ut::MINERAL_FIELD_750 {
            retain_others(&mut self.minerals, *unit_tag);
            Ok(())
        } else if t == ut::ASSIMILATOR || t == ut::ASSIMILATOR_RICH {
            self.lose_assimilator(*unit_tag)
        } else {
            Err(UnitEmploymentError(String::from_str("Unable to employ unit_tag at BaseManager")))
        }
    }

    /// Files a finished building of the base: an assimilator on its geyser,
    /// a nexus as the base's nexus. Refuses any other type, with its number.
    pub fn add_building(&mut self, building: &UnitSnapshot) -> (r: Result<(), BuildError>)
        ensures
            final(self).place() == old(self).place(),
            final(self).name_view() == old(self).name_view(),
            final(self).workers_view() == old(self).workers_view(),
            final(self).minerals_view() == old(self).minerals_view(),
            (building.unit_type == ut::ASSIMILATOR || building.unit_type == ut::ASSIMILATOR_RICH) ==> ({
                let pick = geyser_at(building.position);
                let status = BuildingStatus::Built(Tag { tag: building.tag, unit_type: building.unit_type }, PylonPower::Depowered);
                &&& final(self).geysers_view() == geysers_after(old(self).geysers_view(), pick, status)
                &&& first_geyser(old(self).geysers_view(), pick, 0) is Some ==> r is Ok
                &&& first_geyser(old(self).geysers_view(), pick, 0) is None
                    ==> r == Err::<(), BuildError>(BuildError::NoBuildingLocationHere(building.position))
                &&& final(self).nexus_status() == old(self).nexus_status()
            }),
            building.unit_type == ut::NEXUS ==> r is Ok
                && final(self).nexus_status() == BuildingStatus::Built(Tag { tag: building.tag, unit_type: building.unit_type }, PylonPower::Depowered)
                && final(self).geysers_view() == old(self).geysers_view(),
            !(building.unit_type == ut::ASSIMILATOR || building.unit_type == ut::ASSIMILATOR_RICH || building.unit_type == ut::NEXUS)
                ==> (r matches Err(BuildError::InvalidUnit(m)) && m@ == "Not a unit that can be assigned to a BaseManager: "@
                    + decimal_chars(building.unit_type as nat))
                && final(self).nexus_status() == old(self).nexus_status()
                && final(self).geysers_view() == old(self).geysers_view(),
    {
        let t = building.unit_type;
        if t == ut::ASSIMILATOR || t == ut::ASSIMILATOR_RICH {
            self.add_assimilator(building)
        } else if t == ut::NEXUS {
            self.nexus = BuildingStatus::Built(Tag::from_unit(building), PylonPower::Depowered);
            Ok(())
        } else {
            let mut m = String::from_str("Not a unit that can be assigned to a BaseManager: ");
            push_decimal(&mut m, t as usize);
            Err(BuildError::InvalidUnit(m))
        }
    }

    /// Files an assimilator on the first geyser at its position.
    fn add_assimilator(&mut self, building: &UnitSnapshot) -> (r: Result<(), BuildError>)
        ensures
            ({
                let pick = geyser_at(building.position);
                let status = BuildingStatus::Built(Tag { tag: building.tag, unit_type: building.unit_type }, PylonPower::Depowered);
                &&& final(self).geysers_view() == geysers_after(old(self).geysers_view(), pick, status)
                &&& first_geyser(old(self).geysers_view(), pick, 0) is Some ==> r is Ok
                &&& first_geyser(old(self).geysers_view(), pick, 0) is None
                    ==> r == Err::<(), BuildError>(BuildError::NoBuildingLocationHere(building.position))
            }),
            final(self).nexus == old(self).nexus,
            final(self).location == old(self).location,
            final(self).name == old(self).name,
            final(self).workers == old(self).workers,
            final(self).minerals == old(self).minerals,
    {
        let ghost pick = geyser_at(building.position);
        proof { lemma_first_geyser(self.geysers@, pick, 0); }
        let mut i: usize = 0;
        while i < self.geysers.len()
            invariant
                i <= self.geysers@.len(),
                pick == geyser_at(building.position),
                self.geysers == old(self).geysers,
                self.nexus == old(self).nexus,
                self.location == old(self).location,
                self.name == old(self).name,
                self.workers == old(self).workers,
                self.minerals == old(self).minerals,
                forall|m: int| 0 <= m < i ==> !pick(#[trigger] self.geysers@[m]),
                first_geyser(self.geysers@, pick, 0) matches Some(k) ==> i <= k < self.geysers@.len() && pick(self.geysers@[k])
                    && forall|m: int| 0 <= m < k ==> !pick(#[trigger] self.geysers@[m]),
                first_geyser(self.geysers@, pick, 0) is None ==> forall|m: int| 0 <= m < self.geysers@.len() ==> !pick(#[trigger] self.geysers@[m]),
            decreases self.geysers@.len() - i,
        {
            if self.geysers[i].location == building.position {
                let g = self.geysers[i];
                let status = BuildingStatus::Built(Tag::from_unit(building), PylonPower::Depowered);
                proof {
                    assert(pick(self.geysers@[i as int]));
                    assert(first_geyser(self.geysers@, pick, 0) == Some(i as int));
                }
                self.geysers.set(i, GasLocation { status, ..g });
                return Ok(());
            }
            i = i + 1;
        }
        Err(BuildError::NoBuildingLocationHere(building.position))
    }

    /// Frees the geyser the assimilator `building` stands on.
    fn lose_assimilator(&mut self, building: Tag) -> (r: Result<(), UnitEmploymentError>)
        ensures
            ({
                let pick = geyser_holding(building);
                &&& final(self).geysers_view() == geysers_after(old(self).geysers_view(), pick, free_geyser_status())
                &&& (r is Ok <==> first_geyser(old(self).geysers_view(), pick, 0) is Some)
            }),
            r matches Err(e) ==> e.0@ == "We didn't have a built geyser with this tag: "@ + decimal_chars(building.tag as nat),
            final(self).nexus == old(self).nexus,
            final(self).location == old(self).location,
            final(self).workers == old(self).workers,
            final(self).minerals == old(self).minerals,
    {
        let ghost pick = geyser_holding(building);
        proof { lemma_first_geyser(self.geysers@, pick, 0); }
        let mut i: usize = 0;
        while i < self.geysers.len()
            invariant
                i <= self.geysers@.len(),
                pick == geyser_holding(building),
                self.geysers == old(self).geysers,
                self.nexus == old(self).nexus,
                self.location == old(self).location,
                self.name == old(self).name,
                self.workers == old(self).workers,
                self.minerals == old(self).minerals,
                forall|m: int| 0 <= m < i ==> !pick(#[trigger] self.geysers@[m]),
                first_geyser(self.geysers@, pick, 0) matches Some(k) ==> i <= k < self.geysers@.len() && pick(self.geysers@[k])
                    && forall|m: int| 0 <= m < k ==> !pick(#[trigger] self.geysers@[m]),
                first_geyser(self.geysers@, pick, 0) is None ==> forall|m: int| 0 <= m < self.geysers@.len() ==> !pick(#[trigger] self.geysers@[m]),
            decreases self.geysers@.len() - i,
        {
            if self.geysers[i].is_here(&building) {
                let g = self.geysers[i];
                self.geysers.set(i, GasLocation { status: BuildingStatus::Free(Some(ut::ASSIMILATOR), PylonPower::Depowered), ..g });
                return Ok(());
            }
            i = i + 1;
        }
        let mut m = String::from_str("We didn't have a built geyser with this tag: ");
        push_decimal_u64(&mut m, building.tag);
        Err(UnitEmploymentError(m))
    }

    /// The first geyser free for an assimilator, if any.
    pub fn get_free_geyser(&self) -> (r: Option<&GasLocation>)
        ensures
            ({
                let pick = geyser_free();
                &&& first_geyser(self.geysers_view(), pick, 0) is None ==> r is None
                &&& first_geyser(self.geysers_view(), pick, 0) matches Some(k) ==> (r matches Some(g) && *g == self.geysers_view()[k])
            }),
    {
        let ghost pick = geyser_free();
        proof { lemma_first_geyser(self.geysers@, pick, 0); }
        let mut i: usize = 0;
        while i < self.geysers.len()
            invariant
                i <= self.geysers@.len(),
                pick == geyser_free(),
                forall|m: int| 0 <= m < i ==> !pick(#[trigger] self.geysers@[m]),
                first_geyser(self.geysers@, pick, 0) matches Some(k) ==> i <= k < self.geysers@.len() && pick(self.geysers@[k])
                    && forall|m: int| 0 <= m < k ==> !pick(#[trigger] self.geysers@[m]),
                first_geyser(self.geysers@, pick, 0) is None ==> forall|m: int| 0 <= m < self.geysers@.len() ==> !pick(#[trigger] self.geysers@[m]),
            decreases self.geysers@.len() - i,
        {
            if self.geysers[i].status.can_build(ut::ASSIMILATOR) {
                return Some(&self.geysers[i]);
            }
            i = i + 1;
        }
        None
    }
}

/// Drops every entry equal to `x`, keeping the order of the rest.
fn retain_others(v: &mut Vec<Tag>, x: Tag)
    ensures
        final(v)@ == without(old(v)@, x),
{
    let mut old_v: Vec<Tag> = Vec::new();
    std::mem::swap(&mut old_v, v);
    let mut kept: Vec<Tag> = Vec::new();
    let mut i: usize = 0;
    while i < old_v.len()
        invariant
            i <= old_v@.len(),
            old_v@ == old(v)@,
            kept@ == without(old_v@.subrange(0, i as int), x),
        decreases old_v@.len() - i,
    {
        let t = old_v[i];
        proof {
            let pre = old_v@.subrange(0, i as int);
            assert(old_v@.subrange(0, i as int + 1) =~= pre.push(t));
            pre.lemma_filter_push(t, differs(x));
        }
        if t != x {
            kept.push(t);
        }
        i = i + 1;
    }
    proof { assert(old_v@.subrange(0, old_v@.len() as int) =~= old_v@); }
    proof { assert(without(Seq::<Tag>::empty(), x) =~= Seq::<Tag>::empty()) by { reveal_with_fuel(Seq::filter, 1); } }
    *v = kept;
}

/// Whether a base's nexus stands or is going up.
pub open spec fn nexus_is_mine(b: BaseManager) -> bool {
    b.nexus_status() is Built || b.nexus_status() is Constructing
}

/// An expansion location as the game gives it: where a base goes, with the
/// mineral fields and geysers there.
pub struct Expansion {
    pub loc: Point,
    pub minerals: Vec<UnitSnapshot>,
    pub geysers: Vec<UnitSnapshot>,
}

/// The first expansion, from position `from` on, whose location is `p`.
pub open spec fn first_expansion_at(expansions: Seq<Expansion>, p: Point, from: int) -> Option<int>
    decreases expansions.len() - from,
{
    if from < 0 || from >= expansions.len() {
        None
    } else if expansions[from].loc == p {
        Some(from)
    } else {
        first_expansion_at(expansions, p, from + 1)
    }
}

/// A base's nexus status after each building is filed in order: the last
/// nexus among them becomes the base's.
pub open spec fn nexus_after_buildings(nexus: BuildingStatus, buildings: Seq<UnitSnapshot>) -> BuildingStatus
    decreases buildings.len(),
{
    if buildings.len() == 0 {
        nexus
    } else {
        let b = buildings.last();
        if b.unit_type == ut::NEXUS {
            BuildingStatus::Built(Tag { tag: b.tag, unit_type: b.unit_type }, PylonPower::Depowered)
        } else {
            nexus_after_buildings(nexus, buildings.drop_last())
        }
    }
}

/// A base's geysers after each building is filed in order: each
/// assimilator takes the first geyser at its position.
pub open spec fn geysers_after_buildings(geysers: Seq<GasLocation>, buildings: Seq<UnitSnapshot>) -> Seq<GasLocation>
    decreases buildings.len(),
{
    if buildings.len() == 0 {
        geysers
    } else {
        let prev = geysers_after_buildings(geysers, buildings.drop_last());
        let b = buildings.last();
        if b.unit_type == ut::ASSIMILATOR || b.unit_type == ut::ASSIMILATOR_RICH {
            geysers_after(prev, geyser_at(b.position), BuildingStatus::Built(Tag { tag: b.tag, unit_type: b.unit_type }, PylonPower::Depowered))
        } else {
            prev
        }
    }
}

/// Starts managing a base for a finished nexus: a new base at the expansion
/// location where the nexus stands, named `Expansion` and the number of
/// nexuses, with that expansion's mineral fields and geysers and the
/// buildings already nearby filed (assimilators on their geysers; other
/// buildings are passed over). Refused with `NoBuildingLocationHere` when
/// the nexus is on no expansion location.
pub fn new_base_finished(
    base_managers: &mut Vec<BaseManager>,
    nexus: &UnitSnapshot,
    expansions: &Vec<Expansion>,
    nearby_structures: &Vec<UnitSnapshot>,
    nexus_count: usize,
) -> (r: Result<(), BuildError>)
    ensures
        first_expansion_at(expansions@, nexus.position, 0) is None ==> r == Err::<(), BuildError>(
            BuildError::NoBuildingLocationHere(nexus.position),
        ) && final(base_managers)@ == old(base_managers)@,
        first_expansion_at(expansions@, nexus.position, 0) matches Some(e) ==> r is Ok && ({
            let x = expansions@[e];
            let b = final(base_managers)@.last();
            &&& final(base_managers)@.len() == old(base_managers)@.len() + 1
            &&& forall|i: int| 0 <= i < old(base_managers)@.len() ==> #[trigger] final(base_managers)@[i] == old(base_managers)@[i]
            &&& b.place() == x.loc
            &&& b.name_view() == "Expansion "@ + decimal_chars(nexus_count as nat)
            &&& b.workers_view() == Seq::<Tag>::empty()
            &&& b.minerals_view() == x.minerals@.map_values(|u: UnitSnapshot| Tag { tag: u.tag, unit_type: u.unit_type })
            &&& b.geysers_view() == geysers_after_buildings(
                x.geysers@.map_values(|u: UnitSnapshot| GasLocation { geyser_tag: u.tag, location: u.position, status: free_geyser_status() }),
                nearby_structures@,
            )
            &&& b.nexus_status() == nexus_after_buildings(
                BuildingStatus::Built(Tag { tag: nexus.tag, unit_type: nexus.unit_type }, PylonPower::Depowered),
                nearby_structures@,
            )
        }),
{
    let mut e: usize = 0;
    while e < expansions.len() && expansions[e].loc != nexus.position
        invariant
            e <= expansions@.len(),
            first_expansion_at(expansions@, nexus.position, 0) == first_expansion_at(expansions@, nexus.position, e as int),
        decreases expansions@.len() - e,
    {
        e = e + 1;
    }
    if e >= expansions.len() {
        return Err(BuildError::NoBuildingLocationHere(nexus.position));
    }
    proof {
        assert(first_expansion_at(expansions@, nexus.position, e as int) == Some(e as int));
    }
    let x = &expansions[e];
    let mut name = String::from_str("Expansion ");
    push_decimal(&mut name, nexus_count);
    let mut bm = BaseManager::new(nexus, x.loc, &x.minerals, &x.geysers, name);
    let ghost geysers0 = bm.geysers_view();
    let ghost nexus0 = bm.nexus_status();
    let mut i: usize = 0;
    while i < nearby_structures.len()
        invariant
            i <= nearby_structures@.len(),
            bm.place() == x.loc,
            bm.name_view() == "Expansion "@ + decimal_chars(nexus_count as nat),
            bm.workers_view() == Seq::<Tag>::empty(),
            bm.minerals_view() == x.minerals@.map_values(|u: UnitSnapshot| Tag { tag: u.tag, unit_type: u.unit_type }),
            bm.geysers_view() == geysers_after_buildings(geysers0, nearby_structures@.subrange(0, i as int)),
            bm.nexus_status() == nexus_after_buildings(nexus0, nearby_structures@.subrange(0, i as int)),
        decreases nearby_structures@.len() - i,
    {
        proof {
            assert(nearby_structures@.subrange(0, i as int + 1).drop_last() =~= nearby_structures@.subrange(0, i as int));
        }
        let _ = bm.add_building(&nearby_structures[i]);
        i = i + 1;
    }
    proof {
        assert(nearby_structures@.subrange(0, nearby_structures@.len() as int) =~= nearby_structures@);
    }
    base_managers.push(bm);
    Ok(())
}

/// The first base, from position `from` on, standing at `p`.
pub open spec fn first_base_at(bases: Seq<BaseManager>, p: Point, from: int) -> Option<int>
    decreases bases.len() - from,
{
    if from < 0 || from >= bases.len() {
        None
    } else if bases[from].place() == p {
        Some(from)
    } else {
        first_base_at(bases, p, from + 1)
    }
}

/// Finds a gas to take at the base standing at `at_base`: its first free
/// geyser, with the worker nearest that geyser as builder; hands back the
/// builder and the geyser. Refused with `NoBuildingLocationHere` when no
/// base stands there, `NoPlacementLocations` when no geyser of the base is
/// free, and `NoTrainer` without workers.
pub fn take_gas_at_base(base_managers: &Vec<BaseManager>, at_base: Point, workers: &Vec<(u64, Point)>) -> (r: Result<(u64, u64), BuildError>)
    ensures
        r == match first_base_at(base_managers@, at_base, 0) {
            None => Err::<(u64, u64), BuildError>(BuildError::NoBuildingLocationHere(at_base)),
            Some(k) => match first_geyser(base_managers@[k].geysers_view(), geyser_free(), 0) {
                None => Err::<(u64, u64), BuildError>(BuildError::NoPlacementLocations),
                Some(g) => if workers@.len() == 0 {
                    Err::<(u64, u64), BuildError>(BuildError::NoTrainer)
                } else {
                    let gas = base_managers@[k].geysers_view()[g];
                    Ok::<(u64, u64), BuildError>((workers@[nearest_worker(workers@, gas.location)].0, gas.geyser_tag))
                },
            },
        },
{
    let mut k: usize = 0;
    while k < base_managers.len() && base_managers[k].location != at_base
        invariant
            k <= base_managers@.len(),
            first_base_at(base_managers@, at_base, 0) == first_base_at(base_managers@, at_base, k as int),
        decreases base_managers@.len() - k,
    {
        k = k + 1;
    }
    if k >= base_managers.len() {
        return Err(BuildError::NoBuildingLocationHere(at_base));
    }
    proof {
        assert(first_base_at(base_managers@, at_base, k as int) == Some(k as int));
    }
    let geyser = match base_managers[k].get_free_geyser() {
        Some(g) => *g,
        None => { return Err(BuildError::NoPlacementLocations); },
    };
    let w = match closest_worker(workers, geyser.location) {
        Some(w) => w,
        None => { return Err(BuildError::NoTrainer); },
    };
    proof {
        lemma_nearest_unique(workers@, geyser.location, w as int, nearest_worker(workers@, geyser.location));
    }
    Ok((workers[w].0, geyser.geyser_tag))
}

/// Whether base `k` is the base with our nexus nearest to `p`: its nexus
/// stands or is going up, no such base is nearer, and none before it is as
/// near.
pub open spec fn nearest_with_nexus(bases: Seq<BaseManager>, p: Point, k: int) -> bool {
    &&& 0 <= k < bases.len()
    &&& nexus_is_mine(bases[k])
    &&& forall|m: int| 0 <= m < bases.len() && nexus_is_mine(#[trigger] bases[m]) ==> dist2(bases[k].place(), p) <= dist2(bases[m].place(), p)
    &&& forall|m: int| 0 <= m < k && nexus_is_mine(#[trigger] bases[m]) ==> dist2(bases[k].place(), p) < dist2(bases[m].place(), p)
}

/// Gives a worker to the base with our nexus nearest to it (see
/// `BaseManager::assign_unit`); refused when no base has our nexus. The
/// other bases stay as they were.
pub fn reassign_worker_to_nearest_base(base_managers: &mut Vec<BaseManager>, worker: &UnitSnapshot) -> (r: Result<(), UnitEmploymentError>)
    ensures
        !(exists|m: int| 0 <= m < old(base_managers)@.len() && nexus_is_mine(#[trigger] old(base_managers)@[m]))
            ==> (r matches Err(e) && e.0@ == "No base managers exist!"@) && final(base_managers)@ == old(base_managers)@,
        (exists|m: int| 0 <= m < old(base_managers)@.len() && nexus_is_mine(#[trigger] old(base_managers)@[m])) ==> exists|k: int|
            #[trigger] nearest_with_nexus(old(base_managers)@, worker.position, k) && ({
            let before = old(base_managers)@[k];
            let after = final(base_managers)@[k];
            &&& final(base_managers)@.len() == old(base_managers)@.len()
            &&& forall|m: int| 0 <= m < old(base_managers)@.len() && m != k ==> #[trigger] final(base_managers)@[m] == old(base_managers)@[m]
            &&& (r is Ok <==> worker.unit_type == ut::PROBE)
            &&& after.workers_view() == if worker.unit_type == ut::PROBE {
                before.workers_view().push(Tag { tag: worker.tag, unit_type: worker.unit_type })
            } else {
                before.workers_view()
            }
            &&& after.minerals_view() == before.minerals_view()
            &&& after.geysers_view() == before.geysers_view()
            &&& after.nexus_status() == before.nexus_status()
            &&& after.place() == before.place()
        }),
{
    let mut best: Option<usize> = None;
    let mut best_d: u128 = 0;
    let mut i: usize = 0;
    while i < base_managers.len()
        invariant
            i <= base_managers@.len(),
            base_managers@ == old(base_managers)@,
            best is None ==> forall|m: int| 0 <= m < i ==> !nexus_is_mine(#[trigger] base_managers@[m]),
            best matches Some(b) ==> b < i && nexus_is_mine(base_managers@[b as int])
                && best_d == dist2(base_managers@[b as int].place(), worker.position)
                && (forall|m: int| 0 <= m < i && nexus_is_mine(#[trigger] base_managers@[m]) ==> best_d <= dist2(base_managers@[m].place(), worker.position))
                && (forall|m: int| 0 <= m < b && nexus_is_mine(#[trigger] base_managers@[m]) ==> best_d < dist2(base_managers@[m].place(), worker.position)),
        decreases base_managers@.len() - i,
    {
        if base_managers[i].nexus.is_mine() {
            let d = distance_squared(&base_managers[i].location, &worker.position);
            let better = match best {
                None => true,
                Some(_) => d < best_d,
            };
            if better {
                best = Some(i);
                best_d = d;
            }
        }
        i = i + 1;
    }
    match best {
        None => Err(UnitEmploymentError(String::from_str("No base managers exist!"))),
        Some(b) => {
            proof {
                assert(nearest_with_nexus(old(base_managers)@, worker.position, b as int));
            }
            let ghost before = base_managers@;
            let mut bm = base_managers.remove(b);
            let r = bm.assign_unit(worker);
            base_managers.insert(b, bm);
            proof {
                assert(base_managers@ =~= before.update(b as int, bm));
            }
            r
        },
    }
}

/// The position of the base nearest to `position`, the first of several at
/// the same distance; `None` without bases.
pub fn get_closest_base_manager(base_managers: &Vec<BaseManager>, position: Point) -> (r: Option<usize>)
    ensures
        r is None <==> base_managers@.len() == 0,
        r matches Some(k) ==> nearest_at(base_managers@.map_values(|b: BaseManager| b.place()), position, k as int),
{
    let mut places: Vec<Point> = Vec::new();
    let mut i: usize = 0;
    while i < base_managers.len()
        invariant
            i <= base_managers@.len(),
            places@ == base_managers@.subrange(0, i as int).map_values(|b: BaseManager| b.place()),
        decreases base_managers@.len() - i,
    {
        places.push(base_managers[i].location);
        proof {
            assert(base_managers@.subrange(0, i as int + 1).map_values(|b: BaseManager| b.place())
                =~= base_managers@.subrange(0, i as int).map_values(|b: BaseManager| b.place()).push(base_managers@[i as int].place()));
        }
        i = i + 1;
    }
    proof { assert(base_managers@.subrange(0, base_managers@.len() as int) =~= base_managers@); }
    closest_index(position, &places)
}

} // verus!
