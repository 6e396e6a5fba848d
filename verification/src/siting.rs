//! Construction sites: where buildings may go, and the life cycle of each spot.
use crate::errors::{BuildError, BuildingTransitionError, Either, UnitEmploymentError};
use crate::geometry::{dist2, distance_squared, in_bounds, in_rounding_bounds, rotated90, rounded_coord, Point, POINT_SCALE};
use crate::ids::UnitType;
use crate::unit_types as ut;
use crate::units::{
    assimilator, is_assimilator, is_protoss_building, needs_power, protoss_building,
    structure_needs_power, Tag, UnitSnapshot,
};
use vstd::prelude::*;

verus! {

/// Whether a spot lies in a pylon's power field.
#[derive(PartialEq, Eq, Structural, Debug, Clone, Copy)]
pub enum PylonPower {
    Powered,
    Depowered,
}

/// The status of a construction site: blocked or free (with the type of
/// building meant for it, if any), or holding one of our buildings.
#[derive(PartialEq, Eq, Structural, Debug, Clone, Copy)]
pub enum BuildingStatus {
    Blocked(Option<UnitType>, PylonPower),
    Free(Option<UnitType>, PylonPower),
    Built(Tag, PylonPower),
    Constructing(Tag, PylonPower),
}

/// A change that can happen to a construction site.
#[derive(PartialEq, Eq, Structural, Debug, Clone, Copy)]
pub enum BuildingTransition {
    Destroy,
    Obstruct,
    UnObstruct,
    DePower,
    RePower,
    Construct(Tag),
    Finish,
    Morph(UnitType),
}

/// Whether a building of type `t` may be started on a site with status `s`:
/// the site must be free, powered unless `t` needs no power, and meant for
/// `t` or for nothing in particular.
pub open spec fn status_can_build(s: BuildingStatus, t: UnitType) -> bool {
    match s {
        BuildingStatus::Free(intent, power) => {
            &&& (!needs_power(t) || power == PylonPower::Powered)
            &&& (intent is None || intent == Some(t))
        },
        _ => false,
    }
}

/// The status with its power turned off, if it was on.
pub open spec fn depowered(s: BuildingStatus) -> Option<BuildingStatus> {
    match s {
        BuildingStatus::Blocked(i, PylonPower::Powered) => Some(BuildingStatus::Blocked(i, PylonPower::Depowered)),
        BuildingStatus::Free(i, PylonPower::Powered) => Some(BuildingStatus::Free(i, PylonPower::Depowered)),
        BuildingStatus::Built(t, PylonPower::Powered) => Some(BuildingStatus::Built(t, PylonPower::Depowered)),
        BuildingStatus::Constructing(t, PylonPower::Powered) => Some(BuildingStatus::Constructing(t, PylonPower::Depowered)),
        _ => None,
    }
}

/// The status with its power turned on.
pub open spec fn repowered(s: BuildingStatus) -> BuildingStatus {
    match s {
        BuildingStatus::Blocked(i, _) => BuildingStatus::Blocked(i, PylonPower::Powered),
        BuildingStatus::Free(i, _) => BuildingStatus::Free(i, PylonPower::Powered),
        BuildingStatus::Built(t, _) => BuildingStatus::Built(t, PylonPower::Powered),
        BuildingStatus::Constructing(t, _) => BuildingStatus::Constructing(t, PylonPower::Powered),
    }
}

/// The life cycle of a site: the status that `change` leads to from `s`,
/// or `None` where the change is not allowed.
pub open spec fn next_status(s: BuildingStatus, change: BuildingTransition) -> Option<BuildingStatus> {
    match change {
        BuildingTransition::DePower => depowered(s),
        BuildingTransition::RePower => Some(repowered(s)),
        BuildingTransition::Construct(tag) => match s {
            BuildingStatus::Free(_, p) => if status_can_build(s, tag.unit_type) {
                Some(BuildingStatus::Constructing(tag, p))
            } else {
                None
            },
            _ => None,
        },
        BuildingTransition::Obstruct => match s {
            BuildingStatus::Free(i, p) => Some(BuildingStatus::Blocked(i, p)),
            BuildingStatus::Blocked(i, p) => Some(BuildingStatus::Blocked(i, p)),
            _ => None,
        },
        BuildingTransition::UnObstruct => match s {
            BuildingStatus::Free(i, p) => Some(BuildingStatus::Free(i, p)),
            BuildingStatus::Blocked(i, p) => Some(BuildingStatus::Free(i, p)),
            _ => None,
        },
        BuildingTransition::Finish => match s {
            BuildingStatus::Constructing(t, p) => Some(BuildingStatus::Built(t, p)),
            _ => None,
        },
        BuildingTransition::Destroy => match s {
            BuildingStatus::Built(t, p) => Some(BuildingStatus::Free(Some(t.unit_type), p)),
            BuildingStatus::Constructing(t, p) => Some(BuildingStatus::Free(Some(t.unit_type), p)),
            _ => None,
        },
        BuildingTransition::Morph(new_type) => match s {
            BuildingStatus::Built(t, p) => Some(BuildingStatus::Built(Tag { tag: t.tag, unit_type: new_type }, p)),
            _ => None,
        },
    }
}

impl BuildingStatus {
    pub fn can_build(&self, type_id: UnitType) -> (b: bool)
        ensures
            b == status_can_build(*self, type_id),
    {
        let power_needed = structure_needs_power(&type_id);
        match self {
            BuildingStatus::Free(intent, power) => {
                let power_ok = !power_needed || *power == PylonPower::Powered;
                let intent_ok = match intent {
                    None => true,
                    Some(i) => *i == type_id,
                };
                power_ok && intent_ok
            },
            _ => false,
        }
    }

    pub fn is_mine(&self) -> (b: bool)
        ensures
            b == (*self is Built || *self is Constructing),
    {
        match self {
            BuildingStatus::Built(_, _) | BuildingStatus::Constructing(_, _) => true,
            _ => false,
        }
    }

    pub fn depower(self) -> (r: Result<BuildingStatus, BuildingTransitionError>)
        ensures
            r matches Ok(s) ==> depowered(self) == Some(s),
            r is Err ==> depowered(self) is None && r == Err::<BuildingStatus, BuildingTransitionError>(
                BuildingTransitionError::InvalidTransition { from: self, change: BuildingTransition::DePower },
            ),
    {
        match self {
            BuildingStatus::Blocked(i, PylonPower::Powered) => Ok(BuildingStatus::Blocked(i, PylonPower::Depowered)),
            BuildingStatus::Free(i, PylonPower::Powered) => Ok(BuildingStatus::Free(i, PylonPower::Depowered)),
            BuildingStatus::Built(t, PylonPower::Powered) => Ok(BuildingStatus::Built(t, PylonPower::Depowered)),
            BuildingStatus::Constructing(t, PylonPower::Powered) => Ok(BuildingStatus::Constructing(t, PylonPower::Depowered)),
            _ => Err(BuildingTransitionError::InvalidTransition { from: self, change: BuildingTransition::DePower }),
        }
    }

    /// Powered statuses stay as they are: a site can be powered by several pylons.
    pub fn repower(self) -> (s: BuildingStatus)
        ensures
            s == repowered(self),
    {
        match self {
            BuildingStatus::Blocked(i, _) => BuildingStatus::Blocked(i, PylonPower::Powered),
            BuildingStatus::Free(i, _) => BuildingStatus::Free(i, PylonPower::Powered),
            BuildingStatus::Built(t, _) => BuildingStatus::Built(t, PylonPower::Powered),
            BuildingStatus::Constructing(t, _) => BuildingStatus::Constructing(t, PylonPower::Powered),
        }
    }
}

/// The footprint of a construction site.
#[derive(PartialEq, Eq, Structural, Debug, Clone, Copy)]
pub enum SlotSize {
    Tumor,
    Small,
    Standard,
    Townhall,
}

/// Where a site is: on a geyser (its tag and position), or at a point with a footprint.
#[derive(PartialEq, Eq, Structural, Debug, Clone, Copy)]
pub enum LocationType {
    OnGeyser(u64, Point),
    AtPoint(Point, SlotSize),
}

impl LocationType {
    pub fn from_geyser(geyser: &UnitSnapshot) -> (l: LocationType)
        ensures
            l == LocationType::OnGeyser(geyser.tag, geyser.position),
    {
        LocationType::OnGeyser(geyser.tag, geyser.position)
    }
}

/// A spot where the bot may place a building, and what is there now.
#[derive(PartialEq, Eq, Structural, Debug, Clone, Copy)]
pub struct ConstructionSite {
    pub status: BuildingStatus,
    pub location: LocationType,
}

/// Half the side of a footprint, in fixed-point steps.
pub open spec fn slot_radius(s: SlotSize) -> int {
    match s {
        SlotSize::Tumor => 128,
        SlotSize::Small => 256,
        SlotSize::Standard => 384,
        SlotSize::Townhall => 640,
    }
}

/// The side of a footprint in whole map cells.
pub open spec fn slot_cells(s: SlotSize) -> int {
    match s {
        SlotSize::Tumor => 1,
        SlotSize::Small => 2,
        SlotSize::Standard => 3,
        SlotSize::Townhall => 5,
    }
}

/// The unit type used to ask the game whether a footprint of this size fits.
pub open spec fn checker_for(s: SlotSize) -> UnitType {
    match s {
        SlotSize::Tumor => ut::CREEP_TUMOR,
        SlotSize::Small => ut::PYLON,
        SlotSize::Standard => ut::GATEWAY,
        SlotSize::Townhall => ut::NEXUS,
    }
}

/// The footprint of each Protoss structure; `None` for every other type.
pub open spec fn slot_for(t: UnitType) -> Option<SlotSize> {
    if t == ut::NEXUS {
        Some(SlotSize::Townhall)
    } else if t == ut::ASSIMILATOR || t == ut::GATEWAY || t == ut::WARP_GATE || t == ut::FORGE
        || t == ut::FLEET_BEACON || t == ut::TWILIGHT_COUNCIL || t == ut::STARGATE
        || t == ut::TEMPLAR_ARCHIVE || t == ut::ROBOTICS_BAY || t == ut::ROBOTICS_FACILITY
        || t == ut::CYBERNETICS_CORE {
        Some(SlotSize::Standard)
    } else if t == ut::PHOTON_CANNON || t == ut::DARK_SHRINE || t == ut::SHIELD_BATTERY || t == ut::PYLON {
        Some(SlotSize::Small)
    } else {
        None
    }
}

/// The whole map cell that holds a fixed-point coordinate, the way a
/// float coordinate is cut to an unsigned cell index: towards zero, and
/// negative coordinates to cell 0.
pub open spec fn cell_of(v: int) -> int {
    if v < 0 { 0 } else { v / (POINT_SCALE as int) }
}

/// The map cells covered by a footprint of size `s` centred on `c`, column by column.
pub open spec fn footprint(s: SlotSize, c: Point) -> Seq<(u32, u32)> {
    let n = slot_cells(s);
    let x0 = cell_of(c.x - slot_radius(s));
    let y0 = cell_of(c.y - slot_radius(s));
    Seq::new((n * n) as nat, |k: int| ((x0 + k / n) as u32, (y0 + k % n) as u32))
}

impl SlotSize {
    pub fn from(structure_type: UnitType) -> (r: Result<SlotSize, BuildError>)
        ensures
            slot_for(structure_type) matches Some(s) ==> r == Ok::<SlotSize, BuildError>(s),
            slot_for(structure_type) is None ==> r matches Err(BuildError::InvalidUnit(_)),
    {
        let t = structure_type;
        if t == ut::NEXUS {
            Ok(SlotSize::Townhall)
        } else if t == ut::ASSIMILATOR || t == ut::GATEWAY || t == ut::WARP_GATE || t == ut::FORGE
            || t == ut::FLEET_BEACON || t == ut::TWILIGHT_COUNCIL || t == ut::STARGATE
            || t == ut::TEMPLAR_ARCHIVE || t == ut::ROBOTICS_BAY || t == ut::ROBOTICS_FACILITY
            || t == ut::CYBERNETICS_CORE {
            Ok(SlotSize::Standard)
        } else if t == ut::PHOTON_CANNON || t == ut::DARK_SHRINE || t == ut::SHIELD_BATTERY || t == ut::PYLON {
            Ok(SlotSize::Small)
        } else {
            Err(BuildError::InvalidUnit(String::from_str("This is not a protoss structure")))
        }
    }

    /// Half the side of the footprint, in fixed-point steps.
    pub fn radius(self) -> (r: i32)
        ensures
            r == slot_radius(self),
    {
        match self {
            SlotSize::Tumor => 128,
            SlotSize::Small => 256,
            SlotSize::Standard => 384,
            SlotSize::Townhall => 640,
        }
    }

    /// The side of the footprint, in fixed-point steps.
    pub fn width(self) -> (w: i32)
        ensures
            w == 2 * slot_radius(self),
    {
        self.radius() * 2
    }

    pub fn default_checker(self) -> (t: UnitType)
        ensures
            t == checker_for(self),
    {
        match self {
            SlotSize::Tumor => ut::CREEP_TUMOR,
            SlotSize::Small => ut::PYLON,
            SlotSize::Standard => ut::GATEWAY,
            SlotSize::Townhall => ut::NEXUS,
        }
    }

    /// The map cells under a footprint of this size centred on `center`.
    /// Creep tumours have no footprint of cells here.
    pub fn contained_points(self, center: Point) -> (cells: Vec<(u32, u32)>)
        requires
            self != SlotSize::Tumor,
        ensures
            cells@ == footprint(self, center),
    {
        let r = self.radius();
        let n: u32 = match self {
            SlotSize::Small => 2,
            SlotSize::Standard => 3,
            _ => 5,
        };
        let bx: i64 = center.x as i64 - r as i64;
        let by: i64 = center.y as i64 - r as i64;
        let x0: u32 = if bx < 0 { 0 } else { (bx / 256) as u32 };
        let y0: u32 = if by < 0 { 0 } else { (by / 256) as u32 };
        let mut cells: Vec<(u32, u32)> = Vec::new();
        let ghost fp = footprint(self, center);
        let mut x: u32 = 0;
        while x < n
            invariant
                n == slot_cells(self),
                2 <= n <= 5,
                0 <= x <= n,
                x0 == cell_of(center.x - slot_radius(self)),
                y0 == cell_of(center.y - slot_radius(self)),
                x0 <= 0x80_0000,
                y0 <= 0x80_0000,
                fp == footprint(self, center),
                cells@.len() == x * n,
                forall|k: int| 0 <= k < cells@.len() ==> #[trigger] cells@[k] == fp[k],
            decreases n - x,
        {
            let mut y: u32 = 0;
            while y < n
                invariant
                    n == slot_cells(self),
                    2 <= n <= 5,
                    0 <= x < n,
                    0 <= y <= n,
                    x0 == cell_of(center.x - slot_radius(self)),
                    y0 == cell_of(center.y - slot_radius(self)),
                    x0 <= 0x80_0000,
                    y0 <= 0x80_0000,
                    fp == footprint(self, center),
                    cells@.len() == x * n + y,
                    forall|k: int| 0 <= k < cells@.len() ==> #[trigger] cells@[k] == fp[k],
                decreases n - y,
            {
                proof {
                    let k = x * n + y;
                    assert(k / (n as int) == x && k % (n as int) == y) by (nonlinear_arith)
                        requires
                            k == x * n + y,
                            0 <= y < n,
                            0 <= x,
                    ;
                    assert(0 <= k < n * n) by (nonlinear_arith)
                        requires
                            k == x * n + y,
                            0 <= y < n,
                            0 <= x < n,
                    ;
                }
                cells.push((x0 + x, y0 + y));
                y = y + 1;
            }
            proof {
                assert((x + 1) * n == x * n + n) by (nonlinear_arith);
            }
            x = x + 1;
        }
        proof {
            assert(cells@.len() == fp.len()) by (nonlinear_arith)
                requires
                    cells@.len() == x * n,
                    x == n,
                    fp.len() == n * n,
            ;
        }
        assert(cells@ =~= fp);
        cells
    }
}

/// Where a site is on the map.
pub open spec fn location_point(l: LocationType) -> Point {
    match l {
        LocationType::AtPoint(p, _) => p,
        LocationType::OnGeyser(_, p) => p,
    }
}

/// The footprint of a site: its own size, or a standard one on a geyser.
pub open spec fn location_size(l: LocationType) -> SlotSize {
    match l {
        LocationType::AtPoint(_, s) => s,
        LocationType::OnGeyser(_, _) => SlotSize::Standard,
    }
}

/// The first site, from position `from` of the list on, within `distance`
/// of `near` on which a gas building could be started.
pub open spec fn free_geyser_from(sites: Seq<ConstructionSite>, near: Point, distance: int, from: int) -> Option<ConstructionSite>
    decreases sites.len() - from,
{
    if from < 0 || from >= sites.len() {
        None
    } else if dist2(location_point(sites[from].location), near) <= distance * distance
        && status_can_build(sites[from].status, ut::ASSIMILATOR) {
        Some(sites[from])
    } else {
        free_geyser_from(sites, near, distance, from + 1)
    }
}

/// Whether `p` is an expansion location: the site there is a townhall's.
pub open spec fn expansion_at(m: Map<Point, ConstructionSite>, p: Point) -> bool {
    m.contains_key(p) && location_size(m[p].location) == SlotSize::Townhall
}

/// Whether the site holds, or is building, the given unit.
pub open spec fn site_holds(s: BuildingStatus, building: Tag) -> bool {
    match s {
        BuildingStatus::Built(t, _) => t == building,
        BuildingStatus::Constructing(t, _) => t == building,
        _ => false,
    }
}

/// The unit type to ask the game about when checking whether a site is
/// obstructed: its intended type, or the default for its size; `None` once
/// something of ours stands there.
pub open spec fn checker_of(site: ConstructionSite) -> Option<UnitType> {
    match site.status {
        BuildingStatus::Blocked(intent, _) => if intent is Some { intent } else { Some(checker_for(location_size(site.location))) },
        BuildingStatus::Free(intent, _) => if intent is Some { intent } else { Some(checker_for(location_size(site.location))) },
        _ => None,
    }
}

/// Whether a site needs pylon power: by its intended or present building,
/// and always when nothing is intended.
pub open spec fn site_needs_power(site: ConstructionSite) -> bool {
    match site.status {
        BuildingStatus::Blocked(Some(i), _) => needs_power(i),
        BuildingStatus::Free(Some(i), _) => needs_power(i),
        BuildingStatus::Constructing(t, _) => needs_power(t.unit_type),
        BuildingStatus::Built(t, _) => needs_power(t.unit_type),
        _ => true,
    }
}

/// The map colour of a status, with the given alpha.
pub open spec fn status_color(s: BuildingStatus, a: u8) -> [u8; 4] {
    match s {
        BuildingStatus::Free(_, PylonPower::Powered) => [0, 128, 0, a],
        BuildingStatus::Free(_, PylonPower::Depowered) => [255, 255, 0, a],
        BuildingStatus::Built(_, PylonPower::Depowered) => [0, 0, 205, a],
        BuildingStatus::Built(_, PylonPower::Powered) => [0, 0, 255, a],
        BuildingStatus::Constructing(_, PylonPower::Depowered) => [135, 206, 250, a],
        BuildingStatus::Constructing(_, PylonPower::Powered) => [70, 130, 180, a],
        BuildingStatus::Blocked(_, PylonPower::Depowered) => [124, 72, 72, a],
        BuildingStatus::Blocked(_, PylonPower::Powered) => [139, 0, 0, a],
    }
}

impl ConstructionSite {
    /// A free, unpowered site meant for `intention` (or for anything).
    pub fn new(intention: Option<UnitType>, location: LocationType) -> (s: ConstructionSite)
        ensures
            s.status == BuildingStatus::Free(intention, PylonPower::Depowered),
            s.location == location,
    {
        ConstructionSite { status: BuildingStatus::Free(intention, PylonPower::Depowered), location }
    }

    pub fn pylon(location: Point) -> (s: ConstructionSite)
        ensures
            s == ConstructionSite::spec_new(Some(ut::PYLON), LocationType::AtPoint(location, SlotSize::Small)),
    {
        Self::new(Some(ut::PYLON), LocationType::AtPoint(location, SlotSize::Small))
    }

    pub fn nexus(location: Point) -> (s: ConstructionSite)
        ensures
            s == ConstructionSite::spec_new(Some(ut::NEXUS), LocationType::AtPoint(location, SlotSize::Townhall)),
    {
        Self::new(Some(ut::NEXUS), LocationType::AtPoint(location, SlotSize::Townhall))
    }

    pub fn standard(location: Point) -> (s: ConstructionSite)
        ensures
            s == ConstructionSite::spec_new(None, LocationType::AtPoint(location, SlotSize::Standard)),
    {
        Self::new(None, LocationType::AtPoint(location, SlotSize::Standard))
    }

    pub fn new_gas(geyser: &UnitSnapshot) -> (s: ConstructionSite)
        ensures
            s == ConstructionSite::spec_new(Some(ut::ASSIMILATOR), LocationType::OnGeyser(geyser.tag, geyser.position)),
    {
        Self::new(Some(ut::ASSIMILATOR), LocationType::from_geyser(geyser))
    }

    /// A free, unpowered site.
    pub open spec fn spec_new(intention: Option<UnitType>, location: LocationType) -> ConstructionSite {
        ConstructionSite { status: BuildingStatus::Free(intention, PylonPower::Depowered), location }
    }

    pub fn is_free(&self) -> (b: bool)
        ensures
            b == (self.status is Free),
    {
        match self.status {
            BuildingStatus::Free(_, _) => true,
            _ => false,
        }
    }

    pub fn is_gas(&self) -> (b: bool)
        ensures
            b == (self.location is OnGeyser),
    {
        match self.location {
            LocationType::OnGeyser(_, _) => true,
            _ => false,
        }
    }

    pub fn size(&self) -> (s: SlotSize)
        ensures
            s == location_size(self.location),
    {
        match self.location {
            LocationType::AtPoint(_, s) => s,
            LocationType::OnGeyser(_, _) => SlotSize::Standard,
        }
    }

    pub fn location(&self) -> (p: Point)
        ensures
            p == location_point(self.location),
    {
        match self.location {
            LocationType::AtPoint(p, _) => p,
            LocationType::OnGeyser(_, p) => p,
        }
    }

    pub fn is_mine(&self) -> (b: bool)
        ensures
            b == (self.status is Built || self.status is Constructing),
    {
        self.status.is_mine()
    }

    pub fn is_here(&self, building: &Tag) -> (b: bool)
        ensures
            b == site_holds(self.status, *building),
    {
        match self.status {
            BuildingStatus::Built(t, _) | BuildingStatus::Constructing(t, _) => *building == t,
            _ => false,
        }
    }

    /// Whether the site is free and its intended building (or the default
    /// one for its size) could be started there now.
    pub fn could_build(&self) -> (b: bool)
        ensures
            b == (match self.status {
                BuildingStatus::Free(intent, _) => status_can_build(
                    self.status,
                    if intent is Some { intent->0 } else { checker_for(location_size(self.location)) },
                ),
                _ => false,
            }),
    {
        match self.status {
            BuildingStatus::Free(intent, _) => {
                let t = match intent {
                    Some(i) => i,
                    None => self.size().default_checker(),
                };
                self.status.can_build(t)
            },
            _ => false,
        }
    }

    /// The RGBA colour that shows the site's status on a map, with alpha `a`.
    pub fn color(&self, a: u8) -> (c: [u8; 4])
        ensures
            c == status_color(self.status, a),
    {
        match self.status {
            BuildingStatus::Free(_, PylonPower::Powered) => [0, 128, 0, a],
            BuildingStatus::Free(_, PylonPower::Depowered) => [255, 255, 0, a],
            BuildingStatus::Built(_, PylonPower::Depowered) => [0, 0, 205, a],
            BuildingStatus::Built(_, PylonPower::Powered) => [0, 0, 255, a],
            BuildingStatus::Constructing(_, PylonPower::Depowered) => [135, 206, 250, a],
            BuildingStatus::Constructing(_, PylonPower::Powered) => [70, 130, 180, a],
            BuildingStatus::Blocked(_, PylonPower::Depowered) => [124, 72, 72, a],
            BuildingStatus::Blocked(_, PylonPower::Powered) => [139, 0, 0, a],
        }
    }

    pub fn placement_checker(&self) -> (t: Option<UnitType>)
        ensures
            t == checker_of(*self),
    {
        match self.status {
            BuildingStatus::Blocked(intent, _) | BuildingStatus::Free(intent, _) => match intent {
                Some(i) => Some(i),
                None => Some(self.size().default_checker()),
            },
            _ => None,
        }
    }

    pub fn needs_power(&self) -> (b: bool)
        ensures
            b == site_needs_power(*self),
    {
        let unit_type = match self.status {
            BuildingStatus::Blocked(Some(i), _) | BuildingStatus::Free(Some(i), _) => i,
            BuildingStatus::Constructing(t, _) | BuildingStatus::Built(t, _) => t.unit_type,
            _ => { return true; },
        };
        structure_needs_power(&unit_type)
    }

    /// Applies a change to the site's status. A change that the status does
    /// not allow leaves the site as it was and reports the status and the change.
    pub fn transition(&mut self, transition: BuildingTransition) -> (r: Result<(), BuildingTransitionError>)
        ensures
            final(self).location == old(self).location,
            next_status(old(self).status, transition) matches Some(s) ==> r is Ok && final(self).status == s,
            next_status(old(self).status, transition) is None ==> final(self).status == old(self).status
                && r == Err::<(), BuildingTransitionError>(
                BuildingTransitionError::InvalidTransition { from: old(self).status, change: transition },
            ),
    {
        let status = self.status;
        let invalid = BuildingTransitionError::InvalidTransition { from: status, change: transition };
        let new_status = match transition {
            BuildingTransition::DePower => status.depower(),
            BuildingTransition::RePower => Ok(status.repower()),
            BuildingTransition::Construct(tag) => match status {
                BuildingStatus::Free(_, power) => if status.can_build(tag.unit_type) {
                    Ok(BuildingStatus::Constructing(tag, power))
                } else {
                    Err(invalid)
                },
                _ => Err(invalid),
            },
            BuildingTransition::Obstruct => match status {
                BuildingStatus::Free(intent, power) | BuildingStatus::Blocked(intent, power) => Ok(BuildingStatus::Blocked(intent, power)),
                _ => Err(invalid),
            },
            BuildingTransition::Finish => match status {
                BuildingStatus::Constructing(tag, power) => Ok(BuildingStatus::Built(tag, power)),
                _ => Err(invalid),
            },
            BuildingTransition::Destroy => match status {
                BuildingStatus::Built(tag, power) | BuildingStatus::Constructing(tag, power) => Ok(BuildingStatus::Free(Some(tag.unit_type), power)),
                _ => Err(invalid),
            },
            BuildingTransition::UnObstruct => match status {
                BuildingStatus::Blocked(intent, power) | BuildingStatus::Free(intent, power) => Ok(BuildingStatus::Free(intent, power)),
                _ => Err(invalid),
            },
            BuildingTransition::Morph(new_type) => match status {
                BuildingStatus::Built(tag, power) => Ok(BuildingStatus::Built(Tag { tag: tag.tag, unit_type: new_type }, power)),
                _ => Err(invalid),
            },
        };
        match new_status {
            Ok(s) => {
                self.status = s;
                Ok(())
            },
            Err(e) => Err(e),
        }
    }
}

/// No two sites share a location.
pub open spec fn distinct_locations(s: Seq<ConstructionSite>) -> bool {
    forall|i: int, j: int|
        0 <= i < s.len() && 0 <= j < s.len() && i != j ==> location_point(#[trigger] s[i].location)
            != location_point(#[trigger] s[j].location)
}

/// Whether some site of the list stands at `p`.
pub open spec fn has_site_at(s: Seq<ConstructionSite>, p: Point) -> bool {
    exists|i: int| 0 <= i < s.len() && location_point(#[trigger] s[i].location) == p
}

/// The sites of a list by their locations.
pub open spec fn sites_map(s: Seq<ConstructionSite>) -> Map<Point, ConstructionSite> {
    Map::new(
        |p: Point| has_site_at(s, p),
        |p: Point| s[choose|i: int| 0 <= i < s.len() && location_point(#[trigger] s[i].location) == p],
    )
}

/// In a list without repeated locations, the site at position `i` is the one the map holds at its location.
pub proof fn lemma_sites_map_index(s: Seq<ConstructionSite>, i: int)
    requires
        distinct_locations(s),
        0 <= i < s.len(),
    ensures
        sites_map(s).contains_key(location_point(s[i].location)),
        sites_map(s)[location_point(s[i].location)] == s[i],
{
    let p = location_point(s[i].location);
    assert(has_site_at(s, p));
    let j = choose|j: int| 0 <= j < s.len() && location_point(#[trigger] s[j].location) == p;
    assert(j == i);
}

/// Replacing the site at position `i` by one at the same location updates the map at that location.
pub proof fn lemma_sites_map_update(s: Seq<ConstructionSite>, i: int, site: ConstructionSite)
    requires
        distinct_locations(s),
        0 <= i < s.len(),
        location_point(site.location) == location_point(s[i].location),
    ensures
        distinct_locations(s.update(i, site)),
        sites_map(s.update(i, site)) == sites_map(s).insert(location_point(site.location), site),
{
    let t = s.update(i, site);
    let p = location_point(site.location);
    assert forall|q: Point| #[trigger] sites_map(t).contains_key(q) <==> sites_map(s).insert(p, site).contains_key(q) by {
        if has_site_at(s, q) {
            let k = choose|k: int| 0 <= k < s.len() && location_point(#[trigger] s[k].location) == q;
            if k == i {
                assert(location_point(t[i].location) == q);
            } else {
                assert(location_point(t[k].location) == q);
            }
        }
        if has_site_at(t, q) {
            let k = choose|k: int| 0 <= k < t.len() && location_point(#[trigger] t[k].location) == q;
            if k != i {
                assert(location_point(s[k].location) == q);
            }
        }
    }
    assert forall|q: Point| #[trigger] sites_map(t).contains_key(q) implies sites_map(t)[q] == sites_map(s).insert(p, site)[q] by {
        let k = choose|k: int| 0 <= k < t.len() && location_point(#[trigger] t[k].location) == q;
        lemma_sites_map_index(t, k);
        if k != i {
            lemma_sites_map_index(s, k);
        }
    }
    assert(sites_map(t) =~= sites_map(s).insert(p, site));
}

/// Adding a site at a new location adds it to the map.
pub proof fn lemma_sites_map_push(s: Seq<ConstructionSite>, site: ConstructionSite)
    requires
        distinct_locations(s),
        !has_site_at(s, location_point(site.location)),
    ensures
        distinct_locations(s.push(site)),
        sites_map(s.push(site)) == sites_map(s).insert(location_point(site.location), site),
{
    let t = s.push(site);
    let p = location_point(site.location);
    assert forall|q: Point| #[trigger] sites_map(t).contains_key(q) <==> sites_map(s).insert(p, site).contains_key(q) by {
        if has_site_at(s, q) {
            let k = choose|k: int| 0 <= k < s.len() && location_point(#[trigger] s[k].location) == q;
            assert(location_point(t[k].location) == q);
        }
        if q == p {
            assert(location_point(t[s.len() as int].location) == q);
        }
        if has_site_at(t, q) {
            let k = choose|k: int| 0 <= k < t.len() && location_point(#[trigger] t[k].location) == q;
            if k < s.len() {
                assert(location_point(s[k].location) == q);
            }
        }
    }
    assert forall|q: Point| #[trigger] sites_map(t).contains_key(q) implies sites_map(t)[q] == sites_map(s).insert(p, site)[q] by {
        let k = choose|k: int| 0 <= k < t.len() && location_point(#[trigger] t[k].location) == q;
        lemma_sites_map_index(t, k);
        if k < s.len() {
            lemma_sites_map_index(s, k);
        }
    }
    assert(sites_map(t) =~= sites_map(s).insert(p, site));
}

/// Every construction site the bot knows of, by location.
pub struct SitingDirector {
    sites: Vec<ConstructionSite>,
}

impl SitingDirector {
    /// The sites in the order they are kept.
    pub closed spec fn site_list(&self) -> Seq<ConstructionSite> {
        self.sites@
    }
}

impl View for SitingDirector {
    type V = Map<Point, ConstructionSite>;

    closed spec fn view(&self) -> Map<Point, ConstructionSite> {
        sites_map(self.sites@)
    }
}

impl Default for SitingDirector {
    fn default() -> (d: SitingDirector)
        ensures
            d.wf(),
            d@ == Map::<Point, ConstructionSite>::empty(),
    {
        let d = SitingDirector { sites: Vec::new() };
        assert(d@ =~= Map::<Point, ConstructionSite>::empty());
        d
    }
}

impl SitingDirector {
    /// The director's invariant: every site is filed under its own location.
    pub closed spec fn wf(&self) -> bool {
        distinct_locations(self.sites@)
    }

    /// Each site is filed under its own location.
    pub proof fn lemma_keys_are_locations(&self)
        requires
            self.wf(),
        ensures
            forall|p: Point| #[trigger] self@.contains_key(p) ==> location_point(self@[p].location) == p,
    {
        assert forall|p: Point| #[trigger] self@.contains_key(p) implies location_point(self@[p].location) == p by {
            let k = choose|k: int| 0 <= k < self.sites@.len() && location_point(#[trigger] self.sites@[k].location) == p;
            lemma_sites_map_index(self.sites@, k);
        }
    }

    /// The position of the site at `location` in the list, if there is one.
    fn index_of(&self, location: Point) -> (r: Option<usize>)
        requires
            self.wf(),
        ensures
            r matches Some(i) ==> i < self.sites@.len() && location_point(self.sites@[i as int].location) == location
                && self@.contains_key(location) && self@[location] == self.sites@[i as int],
            r is None ==> !self@.contains_key(location),
    {
        let mut i: usize = 0;
        while i < self.sites.len()
            invariant
                self.wf(),
                i <= self.sites@.len(),
                forall|k: int| 0 <= k < i ==> location_point(#[trigger] self.sites@[k].location) != location,
            decreases self.sites@.len() - i,
        {
            if self.sites[i].location() == location {
                proof { lemma_sites_map_index(self.sites@, i as int); }
                return Some(i);
            }
            i = i + 1;
        }
        None
    }

    /// Replaces the site at position `i` by one at the same location.
    fn replace_at(&mut self, i: usize, site: ConstructionSite)
        requires
            old(self).wf(),
            i < old(self).sites@.len(),
            location_point(site.location) == location_point(old(self).sites@[i as int].location),
        ensures
            final(self).wf(),
            final(self)@ == old(self)@.insert(location_point(site.location), site),
    {
        proof { lemma_sites_map_update(self.sites@, i as int, site); }
        self.sites.set(i, site);
    }

    /// Files a site under its location, replacing any site already there.
    fn insert_site(&mut self, site: ConstructionSite)
        requires
            old(self).wf(),
        ensures
            final(self).wf(),
            final(self)@ == old(self)@.insert(location_point(site.location), site),
    {
        match self.index_of(site.location()) {
            Some(i) => self.replace_at(i, site),
            None => {
                proof { lemma_sites_map_push(self.sites@, site); }
                self.sites.push(site);
            },
        }
    }

    /// Every site, each once.
    pub fn iter(&self) -> (all: Vec<ConstructionSite>)
        requires
            self.wf(),
        ensures
            distinct_locations(all@),
            sites_map(all@) == self@,
    {
        self.sites.clone()
    }

    /// Marks the site under the starting nexus as ours.
    pub fn add_initial_nexus(&mut self, nexus: &UnitSnapshot) -> (r: Result<(), BuildError>)
        requires
            old(self).wf(),
        ensures
            final(self).wf(),
            old(self)@.contains_key(nexus.position) ==> r is Ok && final(self)@ == old(self)@.insert(
                nexus.position,
                ConstructionSite {
                    status: BuildingStatus::Built(Tag { tag: nexus.tag, unit_type: nexus.unit_type }, PylonPower::Depowered),
                    location: old(self)@[nexus.position].location,
                },
            ),
            !old(self)@.contains_key(nexus.position) ==> final(self)@ == old(self)@ && r
                == Err::<(), BuildError>(BuildError::CantPlace(nexus.position, nexus.unit_type)),
    {
        match self.index_of(nexus.position) {
            Some(i) => {
                let mut site = self.sites[i];
                site.status = BuildingStatus::Built(Tag::from_unit(nexus), PylonPower::Depowered);
                self.replace_at(i, site);
                Ok(())
            },
            None => Err(BuildError::CantPlace(nexus.position, nexus.unit_type)),
        }
    }

    /// Marks the site under a new gas building as ours.
    pub fn add_assimilator(&mut self, building: &UnitSnapshot) -> (r: Result<(), BuildError>)
        requires
            old(self).wf(),
        ensures
            final(self).wf(),
            old(self)@.contains_key(building.position) ==> r is Ok && final(self)@ == old(self)@.insert(
                building.position,
                ConstructionSite {
                    status: BuildingStatus::Built(Tag { tag: building.tag, unit_type: building.unit_type }, PylonPower::Depowered),
                    location: old(self)@[building.position].location,
                },
            ),
            !old(self)@.contains_key(building.position) ==> final(self)@ == old(self)@ && r
                == Err::<(), BuildError>(BuildError::NoConstructionSiteHere(building.position)),
    {
        match self.index_of(building.position) {
            Some(i) => {
                let mut site = self.sites[i];
                site.status = BuildingStatus::Built(Tag::from_unit(building), PylonPower::Depowered);
                self.replace_at(i, site);
                Ok(())
            },
            None => Err(BuildError::NoConstructionSiteHere(building.position)),
        }
    }

    /// Frees the site that held a lost gas building, for a new one.
    pub fn lose_assimilator(&mut self, building: Tag) -> (r: Result<(), UnitEmploymentError>)
        requires
            old(self).wf(),
        ensures
            final(self).wf(),
            r is Ok <==> exists|p: Point| #[trigger] old(self)@.contains_key(p) && site_holds(old(self)@[p].status, building),
            r is Ok ==> exists|p: Point| #[trigger] old(self)@.contains_key(p) && site_holds(old(self)@[p].status, building)
                && final(self)@ == old(self)@.insert(p, ConstructionSite {
                    status: BuildingStatus::Free(Some(ut::ASSIMILATOR), PylonPower::Depowered),
                    location: old(self)@[p].location,
                }),
            r is Err ==> final(self)@ == old(self)@,
    {
        match self.index_holding(&building) {
            Some(i) => {
                let mut site = self.sites[i];
                site.status = BuildingStatus::Free(Some(ut::ASSIMILATOR), PylonPower::Depowered);
                self.replace_at(i, site);
                Ok(())
            },
            None => Err(UnitEmploymentError(String::from_str("We didn't have a built geyser with this tag"))),
        }
    }

    /// The position of the first site that holds `building`, if any.
    fn index_holding(&self, building: &Tag) -> (r: Option<usize>)
        requires
            self.wf(),
        ensures
            r matches Some(i) ==> i < self.sites@.len() && site_holds(self.sites@[i as int].status, *building)
                && self@.contains_key(location_point(self.sites@[i as int].location))
                && self@[location_point(self.sites@[i as int].location)] == self.sites@[i as int],
            r is None <==> !exists|p: Point| #[trigger] self@.contains_key(p) && site_holds(self@[p].status, *building),
    {
        let mut i: usize = 0;
        while i < self.sites.len()
            invariant
                self.wf(),
                i <= self.sites@.len(),
                forall|k: int| 0 <= k < i ==> !site_holds(#[trigger] self.sites@[k].status, *building),
            decreases self.sites@.len() - i,
        {
            if self.sites[i].is_here(building) {
                proof {
                    lemma_sites_map_index(self.sites@, i as int);
                    let p = location_point(self.sites@[i as int].location);
                    assert(self@.contains_key(p) && site_holds(self@[p].status, *building));
                }
                return Some(i);
            }
            i = i + 1;
        }
        proof {
            assert forall|p: Point| #[trigger] self@.contains_key(p) implies !site_holds(self@[p].status, *building) by {
                let k = choose|k: int| 0 <= k < self.sites@.len() && location_point(#[trigger] self.sites@[k].location) == p;
                lemma_sites_map_index(self.sites@, k);
            }
        }
        None
    }

    /// Whether `p` is an expansion location, one whose site takes a townhall.
    pub fn is_expansion_location(&self, p: Point) -> (b: bool)
        requires
            self.wf(),
        ensures
            b == expansion_at(self@, p),
    {
        match self.index_of(p) {
            Some(i) => self.sites[i].size() == SlotSize::Townhall,
            None => false,
        }
    }

    /// A free geyser site within `distance` of `near` on which a gas building could be started.
    pub fn get_free_geyser(&self, near: Point, distance: i32) -> (r: Option<ConstructionSite>)
        requires
            self.wf(),
            distance >= 0,
        ensures
            r matches Some(site) ==> self@.contains_key(location_point(site.location))
                && self@[location_point(site.location)] == site
                && dist2(location_point(site.location), near) <= distance * distance
                && status_can_build(site.status, ut::ASSIMILATOR),
            r is None ==> forall|p: Point| #[trigger] self@.contains_key(p) ==> !(dist2(p, near) <= distance * distance
                && status_can_build(self@[p].status, ut::ASSIMILATOR)),
            r == free_geyser_from(self.site_list(), near, distance as int, 0),
    {
        let d: u128 = distance as u128;
        assert(d * d <= 0x1_0000_0000_0000_0000) by (nonlinear_arith)
            requires
                0 <= d <= 0x8000_0000,
        ;
        let limit: u128 = d * d;
        let mut i: usize = 0;
        while i < self.sites.len()
            invariant
                self.wf(),
                i <= self.sites@.len(),
                limit == distance * distance,
                forall|k: int| 0 <= k < i ==> !(dist2(location_point(#[trigger] self.sites@[k].location), near) <= distance * distance
                    && status_can_build(self.sites@[k].status, ut::ASSIMILATOR)),
                free_geyser_from(self.sites@, near, distance as int, 0) == free_geyser_from(self.sites@, near, distance as int, i as int),
            decreases self.sites@.len() - i,
        {
            let site = self.sites[i];
            let loc = site.location();
            if distance_squared(&loc, &near) <= limit && site.status.can_build(ut::ASSIMILATOR) {
                proof { lemma_sites_map_index(self.sites@, i as int); }
                return Some(site);
            }
            i = i + 1;
        }
        proof {
            assert forall|p: Point| #[trigger] self@.contains_key(p) implies !(dist2(p, near) <= distance * distance
                && status_can_build(self@[p].status, ut::ASSIMILATOR)) by {
                let k = choose|k: int| 0 <= k < self.sites@.len() && location_point(#[trigger] self.sites@[k].location) == p;
                lemma_sites_map_index(self.sites@, k);
            }
        }
        None
    }

    /// Applies `change` to the site at position `i`, keeping its location.
    fn transition_at(&mut self, i: usize, change: BuildingTransition) -> (r: Result<(), BuildingTransitionError>)
        requires
            old(self).wf(),
            i < old(self).sites@.len(),
        ensures
            final(self).wf(),
            ({
                let p = location_point(old(self).sites@[i as int].location);
                let s = old(self).sites@[i as int];
                &&& old(self)@.contains_key(p) && old(self)@[p] == s
                &&& next_status(s.status, change) matches Some(n) ==> r is Ok && final(self)@ == old(self)@.insert(
                    p,
                    ConstructionSite { status: n, location: s.location },
                )
                &&& next_status(s.status, change) is None ==> final(self)@ == old(self)@ && r == Err::<(), BuildingTransitionError>(
                    BuildingTransitionError::InvalidTransition { from: s.status, change },
                )
            }),
    {
        proof { lemma_sites_map_index(self.sites@, i as int); }
        let mut site = self.sites[i];
        let r = site.transition(change);
        proof {
            if r is Err {
                assert(site == self.sites@[i as int]);
                assert(self.sites@.update(i as int, site) =~= self.sites@);
            }
        }
        self.replace_at(i, site);
        r
    }

    /// Records that a building has been started at `location`. Only Protoss
    /// structures other than gas buildings are placed on sites.
    pub fn construction_begin(&mut self, tag: Tag, location: Point) -> (r: Result<(), BuildError>)
        requires
            old(self).wf(),
        ensures
            final(self).wf(),
            !(protoss_building(tag.unit_type) && !assimilator(tag.unit_type)) ==> (r matches Err(BuildError::InvalidUnit(_)))
                && final(self)@ == old(self)@,
            (protoss_building(tag.unit_type) && !assimilator(tag.unit_type)) ==> {
                &&& !old(self)@.contains_key(location) ==> final(self)@ == old(self)@
                    && r == Err::<(), BuildError>(BuildError::NoConstructionSiteHere(location))
                &&& old(self)@.contains_key(location) ==> match next_status(old(self)@[location].status, BuildingTransition::Construct(tag)) {
                    Some(n) => r is Ok && final(self)@ == old(self)@.insert(location, ConstructionSite { status: n, location: old(self)@[location].location }),
                    None => final(self)@ == old(self)@ && r == Err::<(), BuildError>(BuildError::NoConstructionSiteHere(location)),
                }
            },
    {
        if !(is_protoss_building(&tag.unit_type) && !is_assimilator(tag.unit_type)) {
            return Err(BuildError::InvalidUnit(String::from_str("not a building placed on a construction site")));
        }
        match self.index_of(location) {
            Some(i) => match self.transition_at(i, BuildingTransition::Construct(tag)) {
                Ok(()) => Ok(()),
                Err(_) => Err(BuildError::NoConstructionSiteHere(location)),
            },
            None => Err(BuildError::NoConstructionSiteHere(location)),
        }
    }

    /// Records that a building under construction has finished.
    pub fn finish_construction(&mut self, structure: &UnitSnapshot) -> (r: Result<(), BuildError>)
        requires
            old(self).wf(),
        ensures
            final(self).wf(),
            !old(self)@.contains_key(structure.position) ==> final(self)@ == old(self)@ && r == Err::<(), BuildError>(
                BuildError::NoConstructionSiteForFinishedBuilding(structure.unit_type),
            ),
            old(self)@.contains_key(structure.position) ==> match next_status(old(self)@[structure.position].status, BuildingTransition::Finish) {
                Some(n) => r is Ok && final(self)@ == old(self)@.insert(
                    structure.position,
                    ConstructionSite { status: n, location: old(self)@[structure.position].location },
                ),
                None => final(self)@ == old(self)@ && r == Err::<(), BuildError>(
                    BuildError::CantTransitionBuildingLocation(
                        BuildingTransitionError::InvalidTransition {
                            from: old(self)@[structure.position].status,
                            change: BuildingTransition::Finish,
                        },
                    ),
                ),
            },
    {
        match self.index_of(structure.position) {
            Some(i) => match self.transition_at(i, BuildingTransition::Finish) {
                Ok(()) => Ok(()),
                Err(e) => Err(BuildError::CantTransitionBuildingLocation(e)),
            },
            None => Err(BuildError::NoConstructionSiteForFinishedBuilding(structure.unit_type)),
        }
    }

    /// Applies an obstruction change (or any other change) to the site at `location`.
    pub fn mark_position_blocked(&mut self, location: Point, make_obstructed: BuildingTransition) -> (r: Result<
        (),
        Either<BuildError, BuildingTransitionError>,
    >)
        requires
            old(self).wf(),
        ensures
            final(self).wf(),
            !old(self)@.contains_key(location) ==> final(self)@ == old(self)@ && r == Err::<(), Either<BuildError, BuildingTransitionError>>(
                Either::Left(BuildError::NoConstructionSiteHere(location)),
            ),
            old(self)@.contains_key(location) ==> match next_status(old(self)@[location].status, make_obstructed) {
                Some(n) => r is Ok && final(self)@ == old(self)@.insert(location, ConstructionSite { status: n, location: old(self)@[location].location }),
                None => final(self)@ == old(self)@ && r == Err::<(), Either<BuildError, BuildingTransitionError>>(
                    Either::Left(BuildError::NoConstructionSiteHere(location)),
                ),
            },
    {
        match self.index_of(location) {
            Some(i) => match self.transition_at(i, make_obstructed) {
                Ok(()) => Ok(()),
                Err(_) => Err(Either::Left(BuildError::NoConstructionSiteHere(location))),
            },
            None => Err(Either::Left(BuildError::NoConstructionSiteHere(location))),
        }
    }

    /// Frees the site of a destroyed building, keeping the building's type as the site's intent.
    pub fn find_and_destroy_building(&mut self, building: &Tag) -> (r: Result<(), BuildError>)
        requires
            old(self).wf(),
        ensures
            final(self).wf(),
            !(exists|p: Point| #[trigger] old(self)@.contains_key(p) && site_holds(old(self)@[p].status, *building)) ==> final(self)@
                == old(self)@ && (r matches Err(BuildError::InvalidUnit(_))),
            (exists|p: Point| #[trigger] old(self)@.contains_key(p) && site_holds(old(self)@[p].status, *building)) ==> r is Ok
                && exists|p: Point| #[trigger] old(self)@.contains_key(p) && site_holds(old(self)@[p].status, *building)
                && final(self)@ == old(self)@.insert(p, ConstructionSite {
                    status: BuildingStatus::Free(Some(building.unit_type), match old(self)@[p].status {
                        BuildingStatus::Built(_, pw) => pw,
                        BuildingStatus::Constructing(_, pw) => pw,
                        BuildingStatus::Free(_, pw) => pw,
                        BuildingStatus::Blocked(_, pw) => pw,
                    }),
                    location: old(self)@[p].location,
                }),
    {
        match self.index_holding(building) {
            Some(i) => {
                let r = self.transition_at(i, BuildingTransition::Destroy);
                match r {
                    Ok(()) => Ok(()),
                    Err(_) => Err(BuildError::InvalidUnit(String::from_str("Target building is here but can't be destroyed"))),
                }
            },
            None => Err(BuildError::InvalidUnit(String::from_str("couldn't find building to destroy"))),
        }
    }

    /// Files every gateway that has become a warp gate (by tag) as a warp gate.
    pub fn check_morph_gateways(&mut self, warpgates: &Vec<u64>) -> (errs: Vec<BuildingTransitionError>)
        requires
            old(self).wf(),
        ensures
            final(self).wf(),
            errs@.len() == 0,
            final(self)@.dom() == old(self)@.dom(),
            forall|p: Point| #[trigger] old(self)@.contains_key(p) ==> final(self)@[p] == morphed_if_warped(old(self)@[p], warpgates@),
    {
        let ghost start = self.sites@;
        let mut i: usize = 0;
        while i < self.sites.len()
            invariant
                distinct_locations(start),
                self.sites@.len() == start.len(),
                i <= start.len(),
                forall|k: int| 0 <= k < i ==> #[trigger] self.sites@[k] == morphed_if_warped(start[k], warpgates@),
                forall|k: int| i <= k < start.len() ==> #[trigger] self.sites@[k] == start[k],
            decreases start.len() - i,
        {
            let site = self.sites[i];
            match site.status {
                BuildingStatus::Built(t, power) => {
                    if t.unit_type == ut::GATEWAY && vec_contains_u64(warpgates, t.tag) {
                        let mut changed = site;
                        changed.status = BuildingStatus::Built(Tag { tag: t.tag, unit_type: ut::WARP_GATE }, power);
                        self.sites.set(i, changed);
                    }
                },
                _ => {},
            }
            i = i + 1;
        }
        proof { lemma_sites_map_pointwise(start, self.sites@); }
        Vec::new()
    }

    /// Turns power on (or off) for every site within reach of a pylon or a
    /// phasing warp prism at `power_point`; other unit types reach only their
    /// own point. Returns the refusals of sites that had no power to lose.
    pub fn update_building_power(&mut self, unit_change: UnitType, power_point: Point, turned_on: bool) -> (errs: Vec<BuildingTransitionError>)
        requires
            old(self).wf(),
        ensures
            final(self).wf(),
            final(self)@.dom() == old(self)@.dom(),
            forall|p: Point| #[trigger] old(self)@.contains_key(p) ==> final(self)@[p] == powered_site(
                old(self)@[p],
                unit_change,
                power_point,
                turned_on,
            ),
            forall|k: int| 0 <= k < errs@.len() ==> refused_by_some_site(old(self)@, #[trigger] errs@[k], unit_change, power_point, turned_on),
            forall|p: Point| #[trigger] old(self)@.contains_key(p) && power_refusal(old(self)@[p], unit_change, power_point, turned_on) is Some
                ==> errs@.contains(power_refusal(old(self)@[p], unit_change, power_point, turned_on)->0),
    {
        let radius: u128 = if unit_change == ut::PYLON {
            1664
        } else if unit_change == ut::WARP_PRISM_PHASING || unit_change == ut::WARP_PRISM {
            960
        } else {
            0
        };
        let change = if turned_on { BuildingTransition::RePower } else { BuildingTransition::DePower };
        let ghost start = self.sites@;
        let mut errs: Vec<BuildingTransitionError> = Vec::new();
        let mut i: usize = 0;
        while i < self.sites.len()
            invariant
                distinct_locations(start),
                self.sites@.len() == start.len(),
                i <= start.len(),
                radius == power_radius(unit_change),
                change == (if turned_on { BuildingTransition::RePower } else { BuildingTransition::DePower }),
                forall|k: int| 0 <= k < i ==> #[trigger] self.sites@[k] == powered_site(start[k], unit_change, power_point, turned_on),
                forall|k: int| i <= k < start.len() ==> #[trigger] self.sites@[k] == start[k],
                forall|k: int| 0 <= k < errs@.len() ==> exists|j: int| 0 <= j < i
                    && power_refusal(#[trigger] start[j], unit_change, power_point, turned_on) == Some(#[trigger] errs@[k]),
                forall|j: int| 0 <= j < i && (#[trigger] power_refusal(start[j], unit_change, power_point, turned_on)) is Some
                    ==> errs@.contains(power_refusal(start[j], unit_change, power_point, turned_on)->0),
            decreases start.len() - i,
        {
            let ghost prev_errs = errs@;
            let mut site = self.sites[i];
            let loc = site.location();
            assert(radius * radius == power_radius(unit_change) * power_radius(unit_change));
            if distance_squared(&loc, &power_point) <= radius * radius {
                match site.transition(change) {
                    Ok(()) => {},
                    Err(e) => {
                        errs.push(e);
                    },
                }
                self.sites.set(i, site);
            }
            proof {
                assert forall|j: int| 0 <= j < i + 1 && (#[trigger] power_refusal(start[j], unit_change, power_point, turned_on)) is Some
                    implies errs@.contains(power_refusal(start[j], unit_change, power_point, turned_on)->0) by {
                    if j == i {
                        assert(errs@[errs@.len() - 1] == power_refusal(start[j], unit_change, power_point, turned_on)->0);
                    } else {
                        let x = power_refusal(start[j], unit_change, power_point, turned_on)->0;
                        assert(prev_errs.contains(x));
                        let m = choose|m: int| 0 <= m < prev_errs.len() && prev_errs[m] == x;
                        assert(errs@[m] == x);
                    }
                }
                assert forall|k: int| 0 <= k < errs@.len() implies exists|j: int| 0 <= j < i + 1
                    && power_refusal(#[trigger] start[j], unit_change, power_point, turned_on) == Some(#[trigger] errs@[k]) by {
                    if k < prev_errs.len() {
                        assert(errs@[k] == prev_errs[k]);
                    } else {
                        assert(power_refusal(start[i as int], unit_change, power_point, turned_on) == Some(errs@[k]));
                    }
                }
            }
            i = i + 1;
        }
        proof {
            lemma_sites_map_pointwise(start, self.sites@);
            assert forall|k: int| 0 <= k < errs@.len() implies refused_by_some_site(old(self)@, #[trigger] errs@[k], unit_change, power_point, turned_on) by {
                let e = errs@[k];
                assert(exists|j: int| 0 <= j < i && power_refusal(#[trigger] start[j], unit_change, power_point, turned_on) == Some(e));
                let j = choose|j: int| 0 <= j < i && power_refusal(#[trigger] start[j], unit_change, power_point, turned_on) == Some(e);
                lemma_sites_map_index(start, j);
                assert(old(self)@.contains_key(location_point(start[j].location)));
            }
            assert forall|p: Point| #[trigger] old(self)@.contains_key(p) && power_refusal(old(self)@[p], unit_change, power_point, turned_on) is Some
                implies errs@.contains(power_refusal(old(self)@[p], unit_change, power_point, turned_on)->0) by {
                let j = choose|j: int| 0 <= j < start.len() && location_point(#[trigger] start[j].location) == p;
                lemma_sites_map_index(start, j);
            }
        }
        errs
    }

    /// Whether a site has the given footprint and could take a building of type `t` now.
    pub open spec fn fits(site: ConstructionSite, size: SlotSize, t: UnitType) -> bool {
        status_can_build(site.status, t) && location_size(site.location) == size
    }

    /// Every site with footprint `size` that could take a building of type `type_id` now.
    pub fn get_available_building_sites(&self, size: &SlotSize, type_id: &UnitType) -> (found: Vec<ConstructionSite>)
        requires
            self.wf(),
        ensures
            distinct_locations(found@),
            forall|k: int| 0 <= k < found@.len() ==> #[trigger] self@.contains_key(location_point(found@[k].location))
                && self@[location_point(found@[k].location)] == found@[k] && Self::fits(found@[k], *size, *type_id),
            forall|p: Point| #[trigger] self@.contains_key(p) && Self::fits(self@[p], *size, *type_id) ==> has_site_at(found@, p),
    {
        let mut found: Vec<ConstructionSite> = Vec::new();
        let mut i: usize = 0;
        while i < self.sites.len()
            invariant
                self.wf(),
                i <= self.sites@.len(),
                distinct_locations(found@),
                forall|k: int| 0 <= k < found@.len() ==> exists|j: int| 0 <= j < i && #[trigger] found@[k] == self.sites@[j],
                forall|k: int| 0 <= k < found@.len() ==> Self::fits(#[trigger] found@[k], *size, *type_id),
                forall|j: int| 0 <= j < i && Self::fits(#[trigger] self.sites@[j], *size, *type_id) ==> has_site_at(found@, location_point(self.sites@[j].location)),
            decreases self.sites@.len() - i,
        {
            let site = self.sites[i];
            if site.status.can_build(*type_id) && site.size() == *size {
                proof {
                    assert forall|k: int| 0 <= k < found@.len() implies location_point(#[trigger] found@[k].location) != location_point(site.location) by {
                        let j = choose|j: int| 0 <= j < i && found@[k] == self.sites@[j];
                        assert(j != i);
                    }
                }
                let ghost prev = found@;
                found.push(site);
                proof {
                    assert forall|j: int| 0 <= j < i + 1 && Self::fits(#[trigger] self.sites@[j], *size, *type_id) implies has_site_at(found@, location_point(self.sites@[j].location)) by {
                        if j == i {
                            assert(location_point(found@[prev.len() as int].location) == location_point(self.sites@[j].location));
                        } else {
                            let m = choose|m: int| 0 <= m < prev.len() && location_point(#[trigger] prev[m].location) == location_point(self.sites@[j].location);
                            assert(location_point(found@[m].location) == location_point(self.sites@[j].location));
                        }
                    }
                    assert forall|k: int| 0 <= k < found@.len() implies exists|j: int| 0 <= j < i + 1 && #[trigger] found@[k] == self.sites@[j] by {
                        if k < prev.len() {
                            assert(found@[k] == prev[k]);
                        } else {
                            assert(found@[k] == self.sites@[i as int]);
                        }
                    }
                }
            }
            i = i + 1;
        }
        proof {
            assert forall|k: int| 0 <= k < found@.len() implies #[trigger] self@.contains_key(location_point(found@[k].location))
                && self@[location_point(found@[k].location)] == found@[k] by {
                let j = choose|j: int| 0 <= j < i && found@[k] == self.sites@[j];
                lemma_sites_map_index(self.sites@, j);
            }
            assert forall|p: Point| #[trigger] self@.contains_key(p) && Self::fits(self@[p], *size, *type_id) implies has_site_at(found@, p) by {
                let j = choose|j: int| 0 <= j < self.sites@.len() && location_point(#[trigger] self.sites@[j].location) == p;
                lemma_sites_map_index(self.sites@, j);
            }
        }
        found
    }

    /// The site closest to `closest_to` among those with footprint `size`
    /// that could take a building of type `type_id` now.
    pub fn get_available_building_site_prioritized(&self, size: SlotSize, type_id: UnitType, closest_to: Point) -> (best: Option<ConstructionSite>)
        requires
            self.wf(),
        ensures
            best matches Some(site) ==> self@.contains_key(location_point(site.location)) && self@[location_point(site.location)] == site
                && Self::fits(site, size, type_id)
                && forall|p: Point| #[trigger] self@.contains_key(p) && Self::fits(self@[p], size, type_id) ==> dist2(location_point(site.location), closest_to) <= dist2(p, closest_to),
            best is None ==> forall|p: Point| #[trigger] self@.contains_key(p) ==> !Self::fits(self@[p], size, type_id),
    {
        let mut best: Option<ConstructionSite> = None;
        let mut best_d: u128 = 0;
        let mut i: usize = 0;
        while i < self.sites.len()
            invariant
                self.wf(),
                i <= self.sites@.len(),
                best matches Some(b) ==> (exists|j: int| 0 <= j < i && #[trigger] self.sites@[j] == b) && Self::fits(b, size, type_id)
                    && best_d == dist2(location_point(b.location), closest_to)
                    && forall|j: int| 0 <= j < i && Self::fits(#[trigger] self.sites@[j], size, type_id) ==> best_d <= dist2(location_point(self.sites@[j].location), closest_to),
                best is None ==> forall|j: int| 0 <= j < i ==> !Self::fits(#[trigger] self.sites@[j], size, type_id),
            decreases self.sites@.len() - i,
        {
            let site = self.sites[i];
            if site.status.can_build(type_id) && site.size() == size {
                let loc = site.location();
                let d = distance_squared(&loc, &closest_to);
                let better = match best {
                    None => true,
                    Some(_) => d < best_d,
                };
                if better {
                    best = Some(site);
                    best_d = d;
                }
            }
            i = i + 1;
        }
        proof {
            if let Some(b) = best {
                let j = choose|j: int| 0 <= j < i && self.sites@[j] == b;
                lemma_sites_map_index(self.sites@, j);
                assert forall|p: Point| #[trigger] self@.contains_key(p) && Self::fits(self@[p], size, type_id) implies dist2(location_point(b.location), closest_to) <= dist2(p, closest_to) by {
                    let k = choose|k: int| 0 <= k < self.sites@.len() && location_point(#[trigger] self.sites@[k].location) == p;
                    lemma_sites_map_index(self.sites@, k);
                }
            } else {
                assert forall|p: Point| #[trigger] self@.contains_key(p) implies !Self::fits(self@[p], size, type_id) by {
                    let k = choose|k: int| 0 <= k < self.sites@.len() && location_point(#[trigger] self.sites@[k].location) == p;
                    lemma_sites_map_index(self.sites@, k);
                }
            }
        }
        best
    }

    /// The sites worth asking the game about: each free or blocked site with
    /// the unit type to test its footprint with.
    pub fn obstruction_checks(&self) -> (checks: Vec<(Point, UnitType)>)
        requires
            self.wf(),
        ensures
            forall|k: int| 0 <= k < checks@.len() ==> #[trigger] self@.contains_key(checks@[k].0)
                && checker_of(self@[checks@[k].0]) == Some(checks@[k].1),
            forall|p: Point| #[trigger] self@.contains_key(p) && checker_of(self@[p]) is Some ==> checks@.contains((p, checker_of(self@[p])->0)),
    {
        let mut checks: Vec<(Point, UnitType)> = Vec::new();
        let mut i: usize = 0;
        while i < self.sites.len()
            invariant
                self.wf(),
                i <= self.sites@.len(),
                forall|k: int| 0 <= k < checks@.len() ==> exists|j: int| 0 <= j < i && location_point(#[trigger] self.sites@[j].location) == (#[trigger] checks@[k]).0
                    && checker_of(self.sites@[j]) == Some(checks@[k].1),
                forall|j: int| 0 <= j < i && checker_of(#[trigger] self.sites@[j]) is Some ==> checks@.contains((location_point(self.sites@[j].location), checker_of(self.sites@[j])->0)),
            decreases self.sites@.len() - i,
        {
            let site = self.sites[i];
            let ghost prev = checks@;
            match site.placement_checker() {
                Some(c) => {
                    checks.push((site.location(), c));
                },
                None => {},
            }
            proof {
                assert forall|j: int| 0 <= j < i + 1 && checker_of(#[trigger] self.sites@[j]) is Some implies checks@.contains((location_point(self.sites@[j].location), checker_of(self.sites@[j])->0)) by {
                    if j == i {
                        assert(checks@[prev.len() as int] == (location_point(self.sites@[j].location), checker_of(self.sites@[j])->0));
                    } else {
                        let x = (location_point(self.sites@[j].location), checker_of(self.sites@[j])->0);
                        let m = choose|m: int| 0 <= m < prev.len() && prev[m] == x;
                        assert(checks@[m] == x);
                    }
                }
                assert forall|k: int| 0 <= k < checks@.len() implies exists|j: int| 0 <= j < i + 1 && location_point(#[trigger] self.sites@[j].location) == (#[trigger] checks@[k]).0
                    && checker_of(self.sites@[j]) == Some(checks@[k].1) by {
                    if k < prev.len() {
                        assert(checks@[k] == prev[k]);
                    } else {
                        assert(location_point(self.sites@[i as int].location) == checks@[k].0);
                    }
                }
            }
            i = i + 1;
        }
        proof {
            assert forall|k: int| 0 <= k < checks@.len() implies #[trigger] self@.contains_key(checks@[k].0)
                && checker_of(self@[checks@[k].0]) == Some(checks@[k].1) by {
                let j = choose|j: int| 0 <= j < i && location_point(#[trigger] self.sites@[j].location) == checks@[k].0
                    && checker_of(self.sites@[j]) == Some(checks@[k].1);
                lemma_sites_map_index(self.sites@, j);
            }
            assert forall|p: Point| #[trigger] self@.contains_key(p) && checker_of(self@[p]) is Some implies checks@.contains((p, checker_of(self@[p])->0)) by {
                let k = choose|k: int| 0 <= k < self.sites@.len() && location_point(#[trigger] self.sites@[k].location) == p;
                lemma_sites_map_index(self.sites@, k);
            }
        }
        checks
    }
}

/// Whether `e` is the refusal of some site of `m` to a power change at `point`.
pub open spec fn refused_by_some_site(
    m: Map<Point, ConstructionSite>,
    e: BuildingTransitionError,
    unit_change: UnitType,
    point: Point,
    turned_on: bool,
) -> bool {
    exists|p: Point| #[trigger] m.contains_key(p) && power_refusal(m[p], unit_change, point, turned_on) == Some(e)
}

/// A gateway site whose building (by tag) is listed as a warp gate, filed as a warp gate.
pub open spec fn morphed_if_warped(site: ConstructionSite, warpgates: Seq<u64>) -> ConstructionSite {
    match site.status {
        BuildingStatus::Built(t, pw) => if t.unit_type == ut::GATEWAY && warpgates.contains(t.tag) {
            ConstructionSite { status: BuildingStatus::Built(Tag { tag: t.tag, unit_type: ut::WARP_GATE }, pw), location: site.location }
        } else {
            site
        },
        _ => site,
    }
}

/// The reach of a power source, in fixed-point steps: 6.5 map units for a
/// pylon, 3.75 for a warp prism, nothing for other units.
pub open spec fn power_radius(unit_change: UnitType) -> int {
    if unit_change == ut::PYLON {
        1664
    } else if unit_change == ut::WARP_PRISM_PHASING || unit_change == ut::WARP_PRISM {
        960
    } else {
        0
    }
}

/// Whether a site lies within reach of a power source at `point`.
pub open spec fn in_power_reach(site: ConstructionSite, unit_change: UnitType, point: Point) -> bool {
    dist2(location_point(site.location), point) <= power_radius(unit_change) * power_radius(unit_change)
}

/// The power change for a site within reach.
pub open spec fn power_change(turned_on: bool) -> BuildingTransition {
    if turned_on { BuildingTransition::RePower } else { BuildingTransition::DePower }
}

/// A site after a power source at `point` was turned on or off.
pub open spec fn powered_site(site: ConstructionSite, unit_change: UnitType, point: Point, turned_on: bool) -> ConstructionSite {
    if in_power_reach(site, unit_change, point) {
        match next_status(site.status, power_change(turned_on)) {
            Some(n) => ConstructionSite { status: n, location: site.location },
            None => site,
        }
    } else {
        site
    }
}

/// The refusal that a site within reach gives when it has no power to lose.
pub open spec fn power_refusal(site: ConstructionSite, unit_change: UnitType, point: Point, turned_on: bool) -> Option<BuildingTransitionError> {
    if in_power_reach(site, unit_change, point) && next_status(site.status, power_change(turned_on)) is None {
        Some(BuildingTransitionError::InvalidTransition { from: site.status, change: power_change(turned_on) })
    } else {
        None
    }
}

/// Whether `v` holds `x`.
pub fn vec_contains_u64(v: &Vec<u64>, x: u64) -> (b: bool)
    ensures
        b == v@.contains(x),
{
    let mut i: usize = 0;
    while i < v.len()
        invariant
            i <= v@.len(),
            forall|k: int| 0 <= k < i ==> v@[k] != x,
        decreases v@.len() - i,
    {
        if v[i] == x {
            return true;
        }
        i = i + 1;
    }
    false
}

/// Changing each site of a list without moving it keeps every location's
/// entry in the map in step with the list.
pub proof fn lemma_sites_map_pointwise(s: Seq<ConstructionSite>, t: Seq<ConstructionSite>)
    requires
        distinct_locations(s),
        t.len() == s.len(),
        forall|k: int| 0 <= k < s.len() ==> location_point(#[trigger] t[k].location) == location_point(s[k].location),
    ensures
        distinct_locations(t),
        sites_map(t).dom() == sites_map(s).dom(),
        forall|k: int| 0 <= k < s.len() ==> #[trigger] sites_map(t)[location_point(s[k].location)] == t[k],
{
    assert(distinct_locations(t)) by {
        assert forall|i: int, j: int| 0 <= i < t.len() && 0 <= j < t.len() && i != j implies location_point(#[trigger] t[i].location)
            != location_point(#[trigger] t[j].location) by {
            assert(location_point(t[i].location) == location_point(s[i].location));
            assert(location_point(t[j].location) == location_point(s[j].location));
        }
    }
    assert forall|p: Point| #[trigger] sites_map(t).dom().contains(p) <==> sites_map(s).dom().contains(p) by {
        if has_site_at(s, p) {
            let k = choose|k: int| 0 <= k < s.len() && location_point(#[trigger] s[k].location) == p;
            assert(location_point(t[k].location) == p);
        }
        if has_site_at(t, p) {
            let k = choose|k: int| 0 <= k < t.len() && location_point(#[trigger] t[k].location) == p;
            assert(location_point(s[k].location) == p);
        }
    }
    assert(sites_map(t).dom() =~= sites_map(s).dom());
    assert forall|k: int| 0 <= k < s.len() implies #[trigger] sites_map(t)[location_point(s[k].location)] == t[k] by {
        lemma_sites_map_index(t, k);
    }
}

/// A free, unpowered site for any 3x3 building.
pub open spec fn standard_site(p: Point) -> ConstructionSite {
    ConstructionSite::spec_new(None, LocationType::AtPoint(p, SlotSize::Standard))
}

/// A free, unpowered site meant for a pylon.
pub open spec fn pylon_site(p: Point) -> ConstructionSite {
    ConstructionSite::spec_new(Some(ut::PYLON), LocationType::AtPoint(p, SlotSize::Small))
}

/// A free, unpowered site meant for a nexus.
pub open spec fn nexus_site(p: Point) -> ConstructionSite {
    ConstructionSite::spec_new(Some(ut::NEXUS), LocationType::AtPoint(p, SlotSize::Townhall))
}

/// A vector and its three quarter-turn images: itself, clockwise once and
/// twice, and counter-clockwise once.
pub open spec fn rotations(p: Point) -> Seq<Point> {
    seq![p, rotated90(p, true), rotated90(rotated90(p, true), true), rotated90(p, false)]
}

/// A vector and its mirror images: `(x, y)`, `(-x, y)`, `(-x, -y)`, `(x, -y)`.
pub open spec fn mirrors(p: Point) -> Seq<Point> {
    seq![
        p,
        Point { x: (-p.x) as i32, y: p.y },
        Point { x: (-p.x) as i32, y: (-p.y) as i32 },
        Point { x: p.x, y: (-p.y) as i32 },
    ]
}

/// Coordinates small enough to turn and mirror.
pub open spec fn turnable(p: Point) -> bool {
    p.x != i32::MIN && p.y != i32::MIN
}

/// The points an interceptor pattern puts 3x3 buildings at, around its pylon:
/// an L of three spots on each side of the pylon, mirrored into every quadrant.
pub open spec fn interceptor_offsets() -> Seq<Point> {
    mirrors(Point { x: 640, y: 384 }) + mirrors(Point { x: 1408, y: 384 }) + mirrors(Point { x: 640, y: 1152 })
}

/// The sites of an interceptor pattern around a pylon at `center`.
pub open spec fn interceptor_sites(center: Point) -> Seq<ConstructionSite> {
    Seq::new(
        12,
        |k: int| standard_site(Point { x: (center.x + interceptor_offsets()[k].x) as i32, y: (center.y + interceptor_offsets()[k].y) as i32 }),
    ).push(pylon_site(center))
}

/// The sites of the pylon patterns at the given spots (each rounded to whole units).
pub open spec fn patterns_at(spots: Seq<Point>) -> Seq<ConstructionSite>
    decreases spots.len(),
{
    if spots.len() == 0 {
        Seq::empty()
    } else {
        patterns_at(spots.drop_last()) + interceptor_sites(
            Point { x: rounded_coord(spots.last().x as int) as i32, y: rounded_coord(spots.last().y as int) as i32 },
        )
    }
}

/// The result of filing each site of `s` in turn under its location.
pub open spec fn insert_all(m: Map<Point, ConstructionSite>, s: Seq<ConstructionSite>) -> Map<Point, ConstructionSite>
    decreases s.len(),
{
    if s.len() == 0 {
        m
    } else {
        insert_all(m, s.drop_last()).insert(location_point(s.last().location), s.last())
    }
}

/// Where the pylon patterns of one expansion go.
#[derive(Clone, Debug)]
pub struct ExpansionSpots {
    /// Where the nexus goes.
    pub base: Point,
    /// Where the pylons of its patterns go, before rounding.
    pub pylon_spots: Vec<Point>,
}

/// Every site that placement sets up for the given expansions, in order.
pub open spec fn expansions_sites(expansions: Seq<ExpansionSpots>) -> Seq<ConstructionSite>
    decreases expansions.len(),
{
    if expansions.len() == 0 {
        Seq::empty()
    } else {
        expansions_sites(expansions.drop_last()) + patterns_at(expansions.last().pylon_spots@).push(nexus_site(expansions.last().base))
    }
}

/// The gas sites for the given geysers, in order.
pub open spec fn geyser_sites(geysers: Seq<UnitSnapshot>) -> Seq<ConstructionSite> {
    Seq::new(
        geysers.len(),
        |k: int| ConstructionSite::spec_new(Some(ut::ASSIMILATOR), LocationType::OnGeyser(geysers[k].tag, geysers[k].position)),
    )
}

impl SitingDirector {
    /// Each offset followed by its three quarter-turn images.
    pub fn rotate_to_four_quadrants(offsets: &Vec<Point>) -> (out: Vec<Point>)
        requires
            forall|k: int| 0 <= k < offsets@.len() ==> turnable(#[trigger] offsets@[k]),
        ensures
            out@.len() == 4 * offsets@.len(),
            forall|k: int| 0 <= k < out@.len() ==> #[trigger] out@[k] == rotations(offsets@[k / 4])[k % 4],
    {
        let mut out: Vec<Point> = Vec::new();
        let mut i: usize = 0;
        while i < offsets.len()
            invariant
                i <= offsets@.len(),
                forall|k: int| 0 <= k < offsets@.len() ==> turnable(#[trigger] offsets@[k]),
                out@.len() == 4 * i,
                forall|k: int| 0 <= k < out@.len() ==> #[trigger] out@[k] == rotations(offsets@[k / 4])[k % 4],
            decreases offsets@.len() - i,
        {
            let p = offsets[i];
            let once = p.rotate90(true);
            out.push(p);
            out.push(once);
            out.push(once.rotate90(true));
            out.push(p.rotate90(false));
            i = i + 1;
        }
        out
    }

    /// Each offset followed by its three mirror images.
    pub fn mirror_to_four_quadrants(offsets: &Vec<Point>) -> (out: Vec<Point>)
        requires
            forall|k: int| 0 <= k < offsets@.len() ==> turnable(#[trigger] offsets@[k]),
        ensures
            out@.len() == 4 * offsets@.len(),
            forall|k: int| 0 <= k < out@.len() ==> #[trigger] out@[k] == mirrors(offsets@[k / 4])[k % 4],
    {
        let mut out: Vec<Point> = Vec::new();
        let mut i: usize = 0;
        while i < offsets.len()
            invariant
                i <= offsets@.len(),
                forall|k: int| 0 <= k < offsets@.len() ==> turnable(#[trigger] offsets@[k]),
                out@.len() == 4 * i,
                forall|k: int| 0 <= k < out@.len() ==> #[trigger] out@[k] == mirrors(offsets@[k / 4])[k % 4],
            decreases offsets@.len() - i,
        {
            let p = offsets[i];
            out.push(p);
            out.push(Point { x: -p.x, y: p.y });
            out.push(Point { x: -p.x, y: -p.y });
            out.push(Point { x: p.x, y: -p.y });
            i = i + 1;
        }
        out
    }

    /// A pylon at `center_point` with four 3x3 spots around the origin,
    /// one in each quadrant.
    pub fn pylon_flower(center_point: Point) -> (sites: Vec<ConstructionSite>)
        ensures
            sites@ == seq![
                standard_site(Point { x: 640, y: -128i32 }),
                standard_site(Point { x: -128i32, y: -640i32 }),
                standard_site(Point { x: -640i32, y: 128 }),
                standard_site(Point { x: 128, y: 640 }),
                pylon_site(center_point),
            ],
    {
        let pylon_radius = SlotSize::Small.radius();
        let pylon_width = SlotSize::Small.width();
        let standard_radius = SlotSize::Standard.radius();
        let mut to_the_right: Vec<Point> = Vec::new();
        to_the_right.push(Point { x: pylon_radius + standard_radius, y: standard_radius - pylon_width });
        let points = Self::rotate_to_four_quadrants(&to_the_right);
        let mut sites: Vec<ConstructionSite> = Vec::new();
        let mut i: usize = 0;
        while i < points.len()
            invariant
                points@.len() == 4,
                i <= 4,
                sites@.len() == i,
                forall|k: int| 0 <= k < i ==> #[trigger] sites@[k] == standard_site(points@[k]),
            decreases 4 - i,
        {
            sites.push(ConstructionSite::standard(points[i]));
            i = i + 1;
        }
        sites.push(ConstructionSite::pylon(center_point));
        assert(points@[0] == rotations(Point { x: 640, y: -128i32 })[0]);
        assert(points@[1] == rotations(Point { x: 640, y: -128i32 })[1]);
        assert(points@[2] == rotations(Point { x: 640, y: -128i32 })[2]);
        assert(points@[3] == rotations(Point { x: 640, y: -128i32 })[3]);
        assert(sites@ =~= seq![
            standard_site(Point { x: 640, y: -128i32 }),
            standard_site(Point { x: -128i32, y: -640i32 }),
            standard_site(Point { x: -640i32, y: 128 }),
            standard_site(Point { x: 128, y: 640 }),
            pylon_site(center_point),
        ]);
        sites
    }

    /// A pylon at `center_point` with twelve 3x3 spots around it.
    pub fn pylon_interceptor(center_point: Point) -> (sites: Vec<ConstructionSite>)
        requires
            in_bounds(center_point),
        ensures
            sites@ == interceptor_sites(center_point),
    {
        let pylon_radius = SlotSize::Small.radius();
        let standard_radius = SlotSize::Standard.radius();
        let standard_width = SlotSize::Standard.width();
        let mut l_shape: Vec<Point> = Vec::new();
        l_shape.push(Point { x: pylon_radius + standard_radius, y: standard_radius });
        l_shape.push(Point { x: pylon_radius + standard_radius + standard_width, y: standard_radius });
        l_shape.push(Point { x: pylon_radius + standard_radius, y: standard_radius + standard_width });
        let offsets = Self::mirror_to_four_quadrants(&l_shape);
        proof {
            assert forall|k: int| 0 <= k < 12 implies #[trigger] offsets@[k] == interceptor_offsets()[k] by {
                assert(offsets@[k] == mirrors(l_shape@[k / 4])[k % 4]);
            }
        }
        let mut sites: Vec<ConstructionSite> = Vec::new();
        let mut i: usize = 0;
        while i < offsets.len()
            invariant
                in_bounds(center_point),
                offsets@.len() == 12,
                forall|k: int| 0 <= k < 12 ==> #[trigger] offsets@[k] == interceptor_offsets()[k],
                forall|k: int| 0 <= k < 12 ==> -1408 <= (#[trigger] interceptor_offsets()[k]).x <= 1408 && -1408 <= interceptor_offsets()[k].y <= 1408,
                i <= 12,
                sites@.len() == i,
                forall|k: int| 0 <= k < i ==> #[trigger] sites@[k] == interceptor_sites(center_point)[k],
            decreases 12 - i,
        {
            let off = offsets[i];
            sites.push(ConstructionSite::standard(center_point.plus(off)));
            i = i + 1;
        }
        sites.push(ConstructionSite::pylon(center_point));
        assert(sites@ =~= interceptor_sites(center_point));
        sites
    }

    /// The building pattern placed around each pylon spot.
    pub fn pylon_pattern(&self, location: Point) -> (sites: Vec<ConstructionSite>)
        requires
            in_bounds(location),
        ensures
            sites@ == interceptor_sites(location),
    {
        Self::pylon_interceptor(location)
    }

    /// The sites of one expansion: a pylon pattern at each pylon spot
    /// (rounded to whole units), then the nexus.
    pub fn expansion_template(&self, base_location: Point, pylon_spots: &Vec<Point>) -> (sites: Vec<ConstructionSite>)
        requires
            forall|k: int| 0 <= k < pylon_spots@.len() ==> in_rounding_bounds(#[trigger] pylon_spots@[k]),
        ensures
            sites@ == patterns_at(pylon_spots@).push(nexus_site(base_location)),
    {
        let mut sites: Vec<ConstructionSite> = Vec::new();
        let mut i: usize = 0;
        while i < pylon_spots.len()
            invariant
                i <= pylon_spots@.len(),
                forall|k: int| 0 <= k < pylon_spots@.len() ==> in_rounding_bounds(#[trigger] pylon_spots@[k]),
                sites@ == patterns_at(pylon_spots@.take(i as int)),
            decreases pylon_spots@.len() - i,
        {
            let spot = pylon_spots[i].round();
            let pattern = self.pylon_pattern(spot);
            proof {
                assert(pylon_spots@.take(i + 1).drop_last() =~= pylon_spots@.take(i as int));
                assert(pylon_spots@.take(i + 1).last() == pylon_spots@[i as int]);
            }
            let mut j: usize = 0;
            let ghost before = sites@;
            while j < pattern.len()
                invariant
                    j <= pattern@.len(),
                    sites@ == before + pattern@.take(j as int),
                decreases pattern@.len() - j,
            {
                sites.push(pattern[j]);
                j = j + 1;
                assert(pattern@.take(j as int) =~= pattern@.take(j - 1).push(pattern@[j - 1]));
            }
            assert(pattern@.take(pattern@.len() as int) =~= pattern@);
            i = i + 1;
        }
        assert(pylon_spots@.take(pylon_spots@.len() as int) =~= pylon_spots@);
        sites.push(ConstructionSite::nexus(base_location));
        sites
    }

    /// Sets up the sites of every expansion and every geyser, each filed
    /// under its location, later ones replacing earlier ones at the same spot.
    pub fn initialize_global_placement(&mut self, expansions: &Vec<ExpansionSpots>, geysers: &Vec<UnitSnapshot>)
        requires
            old(self).wf(),
            forall|e: int, k: int| 0 <= e < expansions@.len() && 0 <= k < expansions@[e].pylon_spots@.len()
                ==> in_rounding_bounds(#[trigger] expansions@[e].pylon_spots@[k]),
        ensures
            final(self).wf(),
            final(self)@ == insert_all(old(self)@, expansions_sites(expansions@) + geyser_sites(geysers@)),
    {
        let ghost start = self@;
        let ghost mut acc: Seq<ConstructionSite> = Seq::empty();
        let mut i: usize = 0;
        while i < expansions.len()
            invariant
                self.wf(),
                i <= expansions@.len(),
                forall|e: int, k: int| 0 <= e < expansions@.len() && 0 <= k < expansions@[e].pylon_spots@.len()
                    ==> in_rounding_bounds(#[trigger] expansions@[e].pylon_spots@[k]),
                acc == expansions_sites(expansions@.take(i as int)),
                self@ == insert_all(start, acc),
            decreases expansions@.len() - i,
        {
            let e = &expansions[i];
            let template = self.expansion_template(e.base, &e.pylon_spots);
            let ghost acc0 = acc;
            let mut j: usize = 0;
            while j < template.len()
                invariant
                    self.wf(),
                    j <= template@.len(),
                    acc == acc0 + template@.take(j as int),
                    self@ == insert_all(start, acc),
                decreases template@.len() - j,
            {
                let site = template[j];
                self.insert_site(site);
                proof {
                    assert(acc.push(site).drop_last() =~= acc);
                    acc = acc.push(site);
                    assert(template@.take(j + 1) =~= template@.take(j as int).push(site));
                }
                j = j + 1;
            }
            proof {
                assert(template@.take(template@.len() as int) =~= template@);
                assert(expansions@.take(i + 1).drop_last() =~= expansions@.take(i as int));
                assert(expansions@.take(i + 1).last() == expansions@[i as int]);
            }
            i = i + 1;
        }
        assert(expansions@.take(expansions@.len() as int) =~= expansions@);
        let ghost acc1 = acc;
        let mut g: usize = 0;
        while g < geysers.len()
            invariant
                self.wf(),
                g <= geysers@.len(),
                acc1 == expansions_sites(expansions@),
                acc == acc1 + geyser_sites(geysers@).take(g as int),
                self@ == insert_all(start, acc),
            decreases geysers@.len() - g,
        {
            let site = ConstructionSite::new_gas(&geysers[g]);
            self.insert_site(site);
            proof {
                assert(acc.push(site).drop_last() =~= acc);
                acc = acc.push(site);
                assert(geyser_sites(geysers@).take(g + 1) =~= geyser_sites(geysers@).take(g as int).push(site));
            }
            g = g + 1;
        }
        assert(geyser_sites(geysers@).take(geysers@.len() as int) =~= geyser_sites(geysers@));
    }
}

} // verus!

verus! {

/// A site that can take a building goes through its whole life: started,
/// finished, and, once destroyed, free again for the same type with the same power.
pub proof fn law_site_life_cycle(status: BuildingStatus, building: Tag)
    requires
        status_can_build(status, building.unit_type),
    ensures
        ({
            let power = match status { BuildingStatus::Free(_, p) => p, _ => PylonPower::Depowered };
            &&& next_status(status, BuildingTransition::Construct(building)) == Some(BuildingStatus::Constructing(building, power))
            &&& next_status(BuildingStatus::Constructing(building, power), BuildingTransition::Finish) == Some(BuildingStatus::Built(building, power))
            &&& next_status(BuildingStatus::Built(building, power), BuildingTransition::Destroy) == Some(BuildingStatus::Free(Some(building.unit_type), power))
        }),
{
}

/// Only free sites take new buildings.
pub proof fn law_only_free_sites_build(status: BuildingStatus, t: UnitType)
    requires
        status_can_build(status, t),
    ensures
        status is Free,
{
}

/// Turning power on twice is the same as turning it on once.
pub proof fn law_repower_idempotent(status: BuildingStatus)
    ensures
        repowered(repowered(status)) == repowered(status),
        next_status(status, BuildingTransition::RePower) is Some,
{
}

/// Turning power off undoes turning it on, and turning it on undoes turning it off.
pub proof fn law_power_round_trip(status: BuildingStatus)
    ensures
        depowered(repowered(status)) is Some,
        depowered(status) matches Some(d) ==> repowered(d) == status,
        match status {
            BuildingStatus::Blocked(_, PylonPower::Depowered) | BuildingStatus::Free(_, PylonPower::Depowered)
            | BuildingStatus::Built(_, PylonPower::Depowered) | BuildingStatus::Constructing(_, PylonPower::Depowered) =>
                depowered(repowered(status)) == Some(status),
            _ => depowered(status) is Some,
        },
{
}

/// Blocking a free site and clearing it again leaves it as it was.
pub proof fn law_obstruction_round_trip(status: BuildingStatus)
    requires
        status is Free,
    ensures
        next_status(status, BuildingTransition::Obstruct) matches Some(b)
            && next_status(b, BuildingTransition::UnObstruct) == Some(status),
{
}

/// Power changes never turn a site into another kind of site.
pub proof fn law_power_keeps_kind(status: BuildingStatus, change: BuildingTransition)
    requires
        change == BuildingTransition::RePower || change == BuildingTransition::DePower,
    ensures
        next_status(status, change) matches Some(n) ==> (n is Free <==> status is Free) && (n is Blocked <==> status is Blocked)
            && (n is Built <==> status is Built) && (n is Constructing <==> status is Constructing),
{
}


/// The kind of a site as the summary counts it: gas, or the size of a site
/// on the ground.
pub open spec fn counts_as(site: ConstructionSite, gas: bool, size: SlotSize) -> bool {
    if gas {
        site.location is OnGeyser
    } else {
        !(site.location is OnGeyser) && location_size(site.location) == size
    }
}

/// How many sites of the map are of the kind.
pub open spec fn kind_count(m: Map<Point, ConstructionSite>, gas: bool, size: SlotSize) -> nat {
    m.dom().filter(|p: Point| counts_as(m[p], gas, size)).len()
}

/// How many sites of the list are of the kind.
pub open spec fn list_kind_count(s: Seq<ConstructionSite>, gas: bool, size: SlotSize) -> nat
    decreases s.len(),
{
    if s.len() == 0 {
        0
    } else {
        list_kind_count(s.drop_last(), gas, size) + if counts_as(s.last(), gas, size) { 1nat } else { 0nat }
    }
}

/// The map of a list of sites has finitely many locations.
proof fn lemma_sites_map_finite(s: Seq<ConstructionSite>)
    requires
        distinct_locations(s),
    ensures
        sites_map(s).dom().finite(),
    decreases s.len(),
{
    if s.len() == 0 {
        assert(sites_map(s).dom() =~= Set::<Point>::empty());
    } else {
        let t = s.drop_last();
        assert(distinct_locations(t)) by {
            assert forall|i: int, j: int| 0 <= i < t.len() && 0 <= j < t.len() && i != j implies location_point(#[trigger] t[i].location)
                != location_point(#[trigger] t[j].location) by {
                assert(t[i] == s[i] && t[j] == s[j]);
            }
        }
        lemma_sites_map_finite(t);
        assert(!has_site_at(t, location_point(s.last().location))) by {
            if has_site_at(t, location_point(s.last().location)) {
                let k = choose|k: int| 0 <= k < t.len() && location_point(#[trigger] t[k].location) == location_point(s.last().location);
                assert(t[k] == s[k]);
                assert(location_point(s[k].location) == location_point(s[s.len() - 1].location));
            }
        }
        lemma_sites_map_push(t, s.last());
        assert(t.push(s.last()) =~= s);
    }
}

/// Counting the kinds along a list without repeated locations counts them
/// in its map.
proof fn lemma_kind_count_of_list(s: Seq<ConstructionSite>, gas: bool, size: SlotSize)
    requires
        distinct_locations(s),
    ensures
        list_kind_count(s, gas, size) == kind_count(sites_map(s), gas, size),
    decreases s.len(),
{
    if s.len() == 0 {
        assert(sites_map(s).dom().filter(|p: Point| counts_as(sites_map(s)[p], gas, size)) =~= Set::<Point>::empty());
    } else {
        let t = s.drop_last();
        let x = s.last();
        let loc = location_point(x.location);
        assert(distinct_locations(t)) by {
            assert forall|i: int, j: int| 0 <= i < t.len() && 0 <= j < t.len() && i != j implies location_point(#[trigger] t[i].location)
                != location_point(#[trigger] t[j].location) by {
                assert(t[i] == s[i] && t[j] == s[j]);
            }
        }
        lemma_kind_count_of_list(t, gas, size);
        lemma_sites_map_finite(t);
        assert(!has_site_at(t, loc)) by {
            if has_site_at(t, loc) {
                let k = choose|k: int| 0 <= k < t.len() && location_point(#[trigger] t[k].location) == loc;
                assert(t[k] == s[k]);
                assert(location_point(s[k].location) == location_point(s[s.len() - 1].location));
            }
        }
        lemma_sites_map_push(t, x);
        assert(t.push(x) =~= s);
        let mt = sites_map(t);
        let ms = sites_map(s);
        let ft = mt.dom().filter(|p: Point| counts_as(mt[p], gas, size));
        let fs = ms.dom().filter(|p: Point| counts_as(ms[p], gas, size));
        assert(!mt.dom().contains(loc));
        assert(ft.finite()) by {
            mt.dom().lemma_len_filter(|p: Point| counts_as(mt[p], gas, size));
        }
        if counts_as(x, gas, size) {
            assert(fs =~= ft.insert(loc));
            assert(!ft.contains(loc));
        } else {
            assert(fs =~= ft);
        }
    }
}

impl SitingDirector {
    /// The one-line summary `Sites: S:small M:standard L:townhall G:gas`: how
    /// many sites of each size there are on the ground, and on geysers.
    pub fn to_text(&self) -> (s: String)
        requires
            self.wf(),
        ensures
            s@ == "Sites: S:"@ + crate::text::decimal_chars(kind_count(self@, false, SlotSize::Small))
                + " M:"@ + crate::text::decimal_chars(kind_count(self@, false, SlotSize::Standard))
                + " L:"@ + crate::text::decimal_chars(kind_count(self@, false, SlotSize::Townhall))
                + " G:"@ + crate::text::decimal_chars(kind_count(self@, true, SlotSize::Standard)),
    {
        let mut smalls: usize = 0;
        let mut standards: usize = 0;
        let mut larges: usize = 0;
        let mut gasses: usize = 0;
        let mut i: usize = 0;
        while i < self.sites.len()
            invariant
                i <= self.sites@.len(),
                smalls == list_kind_count(self.sites@.subrange(0, i as int), false, SlotSize::Small),
                standards == list_kind_count(self.sites@.subrange(0, i as int), false, SlotSize::Standard),
                larges == list_kind_count(self.sites@.subrange(0, i as int), false, SlotSize::Townhall),
                gasses == list_kind_count(self.sites@.subrange(0, i as int), true, SlotSize::Standard),
                smalls + standards + larges + gasses <= i,
            decreases self.sites@.len() - i,
        {
            proof {
                assert(self.sites@.subrange(0, i as int + 1).drop_last() =~= self.sites@.subrange(0, i as int));
            }
            let site = &self.sites[i];
            if site.is_gas() {
                gasses = gasses + 1;
            } else {
                match site.size() {
                    SlotSize::Small => { smalls = smalls + 1; },
                    SlotSize::Standard => { standards = standards + 1; },
                    SlotSize::Townhall => { larges = larges + 1; },
                    SlotSize::Tumor => {},
                }
            }
            i = i + 1;
        }
        proof {
            assert(self.sites@.subrange(0, self.sites@.len() as int) =~= self.sites@);
            lemma_kind_count_of_list(self.sites@, false, SlotSize::Small);
            lemma_kind_count_of_list(self.sites@, false, SlotSize::Standard);
            lemma_kind_count_of_list(self.sites@, false, SlotSize::Townhall);
            lemma_kind_count_of_list(self.sites@, true, SlotSize::Standard);
        }
        let mut s = String::from_str("Sites: S:");
        crate::text::push_decimal(&mut s, smalls);
        s.append(" M:");
        crate::text::push_decimal(&mut s, standards);
        s.append(" L:");
        crate::text::push_decimal(&mut s, larges);
        s.append(" G:");
        crate::text::push_decimal(&mut s, gasses);
        s
    }
}

impl SlotSize {
    /// The footprint as text: `1x1`, `2x2`, `3x3` or `5x5`.
    pub fn to_text(&self) -> (s: &'static str)
        ensures
            s@ == match *self {
                SlotSize::Tumor => "1x1"@,
                SlotSize::Small => "2x2"@,
                SlotSize::Standard => "3x3"@,
                SlotSize::Townhall => "5x5"@,
            },
    {
        match self {
            SlotSize::Tumor => "1x1",
            SlotSize::Small => "2x2",
            SlotSize::Standard => "3x3",
            SlotSize::Townhall => "5x5",
        }
    }
}

} // verus!
