//! Unit tags and the rules that sort unit types into kinds.
use crate::abilities as ab;
use crate::geometry::Point;
use crate::ids::{Ability, UnitType};
use crate::unit_types as ut;
use std::collections::HashMap;
use vstd::prelude::*;
use vstd::std_specs::hash::obeys_key_model;

verus! {

broadcast use vstd::std_specs::hash::group_hash_axioms;

/// A unit as the bot remembers it: its tag and its type.
#[derive(Debug, PartialEq, Eq, Structural, Clone, Copy)]
pub struct Tag {
    pub tag: u64,
    pub unit_type: UnitType,
}

impl Tag {
    /// The placeholder tag: tag 0, no unit type.
    pub fn default() -> (t: Tag)
        ensures
            t.tag == 0,
            t.unit_type == ut::NOT_A_UNIT,
    {
        Tag { tag: 0, unit_type: ut::NOT_A_UNIT }
    }
}

/// The Protoss structures.
pub open spec fn protoss_building(u: UnitType) -> bool {
    ||| u == ut::NEXUS
    ||| u == ut::ASSIMILATOR
    ||| u == ut::ASSIMILATOR_RICH
    ||| u == ut::PYLON
    ||| u == ut::GATEWAY
    ||| u == ut::WARP_GATE
    ||| u == ut::FORGE
    ||| u == ut::FLEET_BEACON
    ||| u == ut::TWILIGHT_COUNCIL
    ||| u == ut::PHOTON_CANNON
    ||| u == ut::STARGATE
    ||| u == ut::TEMPLAR_ARCHIVE
    ||| u == ut::DARK_SHRINE
    ||| u == ut::ROBOTICS_BAY
    ||| u == ut::ROBOTICS_FACILITY
    ||| u == ut::CYBERNETICS_CORE
    ||| u == ut::SHIELD_BATTERY
}

/// The two kinds of gas building.
pub open spec fn assimilator(u: UnitType) -> bool {
    u == ut::ASSIMILATOR || u == ut::ASSIMILATOR_RICH
}

/// Every kind of mineral field.
pub open spec fn minerals(u: UnitType) -> bool {
    ||| u == ut::MINERAL_FIELD
    ||| u == ut::MINERAL_FIELD_750
    ||| u == ut::MINERAL_FIELD_450
    ||| u == ut::LAB_MINERAL_FIELD
    ||| u == ut::LAB_MINERAL_FIELD_750
    ||| u == ut::RICH_MINERAL_FIELD
    ||| u == ut::RICH_MINERAL_FIELD_750
    ||| u == ut::MINERAL_FIELD_OPAQUE
    ||| u == ut::MINERAL_FIELD_OPAQUE_900
    ||| u == ut::PURIFIER_MINERAL_FIELD
    ||| u == ut::PURIFIER_MINERAL_FIELD_750
    ||| u == ut::PURIFIER_RICH_MINERAL_FIELD
    ||| u == ut::PURIFIER_RICH_MINERAL_FIELD_750
    ||| u == ut::BATTLE_STATION_MINERAL_FIELD
    ||| u == ut::BATTLE_STATION_MINERAL_FIELD_750
}

/// The structures that produce units.
pub open spec fn protoss_production(u: UnitType) -> bool {
    ||| u == ut::NEXUS
    ||| u == ut::GATEWAY
    ||| u == ut::WARP_GATE
    ||| u == ut::STARGATE
    ||| u == ut::ROBOTICS_BAY
}

/// The structures that research upgrades or unlock tech.
pub open spec fn protoss_tech(u: UnitType) -> bool {
    ||| u == ut::FORGE
    ||| u == ut::FLEET_BEACON
    ||| u == ut::TWILIGHT_COUNCIL
    ||| u == ut::TEMPLAR_ARCHIVE
    ||| u == ut::DARK_SHRINE
    ||| u == ut::ROBOTICS_BAY
    ||| u == ut::CYBERNETICS_CORE
}

/// Whether a structure of this type must stand in a pylon's power field:
/// every type does but gas buildings, the nexus and the pylon itself.
pub open spec fn needs_power(u: UnitType) -> bool {
    if protoss_building(u) {
        !(u == ut::ASSIMILATOR || u == ut::ASSIMILATOR_RICH || u == ut::NEXUS || u == ut::PYLON)
    } else {
        true
    }
}

pub fn is_protoss_building(unit: &UnitType) -> (b: bool)
    ensures
        b == protoss_building(*unit),
{
    let u = *unit;
    u == ut::NEXUS || u == ut::ASSIMILATOR || u == ut::ASSIMILATOR_RICH || u == ut::PYLON
        || u == ut::GATEWAY || u == ut::WARP_GATE || u == ut::FORGE || u == ut::FLEET_BEACON
        || u == ut::TWILIGHT_COUNCIL || u == ut::PHOTON_CANNON || u == ut::STARGATE
        || u == ut::TEMPLAR_ARCHIVE || u == ut::DARK_SHRINE || u == ut::ROBOTICS_BAY
        || u == ut::ROBOTICS_FACILITY || u == ut::CYBERNETICS_CORE || u == ut::SHIELD_BATTERY
}

pub fn is_assimilator(unit: UnitType) -> (b: bool)
    ensures
        b == assimilator(unit),
{
    unit == ut::ASSIMILATOR || unit == ut::ASSIMILATOR_RICH
}

pub fn is_minerals(unit: UnitType) -> (b: bool)
    ensures
        b == minerals(unit),
{
    let u = unit;
    u == ut::MINERAL_FIELD || u == ut::MINERAL_FIELD_750 || u == ut::MINERAL_FIELD_450
        || u == ut::LAB_MINERAL_FIELD || u == ut::LAB_MINERAL_FIELD_750
        || u == ut::RICH_MINERAL_FIELD || u == ut::RICH_MINERAL_FIELD_750
        || u == ut::MINERAL_FIELD_OPAQUE || u == ut::MINERAL_FIELD_OPAQUE_900
        || u == ut::PURIFIER_MINERAL_FIELD || u == ut::PURIFIER_MINERAL_FIELD_750
        || u == ut::PURIFIER_RICH_MINERAL_FIELD || u == ut::PURIFIER_RICH_MINERAL_FIELD_750
        || u == ut::BATTLE_STATION_MINERAL_FIELD || u == ut::BATTLE_STATION_MINERAL_FIELD_750
}

pub fn is_protoss_production(unit: UnitType) -> (b: bool)
    ensures
        b == protoss_production(unit),
{
    unit == ut::NEXUS || unit == ut::GATEWAY || unit == ut::WARP_GATE || unit == ut::STARGATE
        || unit == ut::ROBOTICS_BAY
}

pub fn is_protoss_tech(unit: UnitType) -> (b: bool)
    ensures
        b == protoss_tech(unit),
{
    unit == ut::FORGE || unit == ut::FLEET_BEACON || unit == ut::TWILIGHT_COUNCIL
        || unit == ut::TEMPLAR_ARCHIVE || unit == ut::DARK_SHRINE || unit == ut::ROBOTICS_BAY
        || unit == ut::CYBERNETICS_CORE
}

pub fn structure_needs_power(unit: &UnitType) -> (b: bool)
    ensures
        b == needs_power(*unit),
{
    if is_protoss_building(unit) {
        let u = *unit;
        !(u == ut::ASSIMILATOR || u == ut::ASSIMILATOR_RICH || u == ut::NEXUS || u == ut::PYLON)
    } else {
        true
    }
}

/// The unit that a training ability produces; `NOT_A_UNIT` for any other ability.
pub open spec fn produced_by(ability: Ability) -> UnitType {
    if ability == ab::NEXUS_TRAIN_PROBE {
        ut::PROBE
    } else if ability == ab::TRAIN_ADEPT {
        ut::ADEPT
    } else if ability == ab::GATEWAY_TRAIN_ZEALOT {
        ut::ZEALOT
    } else if ability == ab::GATEWAY_TRAIN_SENTRY {
        ut::SENTRY
    } else if ability == ab::GATEWAY_TRAIN_STALKER {
        ut::STALKER
    } else if ability == ab::GATEWAY_TRAIN_DARK_TEMPLAR {
        ut::DARK_TEMPLAR
    } else if ability == ab::GATEWAY_TRAIN_HIGH_TEMPLAR {
        ut::HIGH_TEMPLAR
    } else if ability == ab::TRAIN_DISRUPTOR {
        ut::DISRUPTOR
    } else if ability == ab::ROBOTICS_FACILITY_TRAIN_COLOSSUS {
        ut::COLOSSUS
    } else if ability == ab::ROBOTICS_FACILITY_TRAIN_WARP_PRISM {
        ut::WARP_PRISM
    } else if ability == ab::ROBOTICS_FACILITY_TRAIN_OBSERVER {
        ut::OBSERVER
    } else if ability == ab::ROBOTICS_FACILITY_TRAIN_IMMORTAL {
        ut::IMMORTAL
    } else if ability == ab::STARGATE_TRAIN_TEMPEST {
        ut::TEMPEST
    } else if ability == ab::STARGATE_TRAIN_ORACLE {
        ut::ORACLE
    } else if ability == ab::STARGATE_TRAIN_VOID_RAY {
        ut::VOID_RAY
    } else if ability == ab::STARGATE_TRAIN_PHOENIX {
        ut::PHOENIX
    } else if ability == ab::STARGATE_TRAIN_CARRIER {
        ut::CARRIER
    } else {
        ut::NOT_A_UNIT
    }
}

pub fn ability_produces(ability: Ability) -> (u: UnitType)
    ensures
        u == produced_by(ability),
{
    if ability == ab::NEXUS_TRAIN_PROBE {
        ut::PROBE
    } else if ability == ab::TRAIN_ADEPT {
        ut::ADEPT
    } else if ability == ab::GATEWAY_TRAIN_ZEALOT {
        ut::ZEALOT
    } else if ability == ab::GATEWAY_TRAIN_SENTRY {
        ut::SENTRY
    } else if ability == ab::GATEWAY_TRAIN_STALKER {
        ut::STALKER
    } else if ability == ab::GATEWAY_TRAIN_DARK_TEMPLAR {
        ut::DARK_TEMPLAR
    } else if ability == ab::GATEWAY_TRAIN_HIGH_TEMPLAR {
        ut::HIGH_TEMPLAR
    } else if ability == ab::TRAIN_DISRUPTOR {
        ut::DISRUPTOR
    } else if ability == ab::ROBOTICS_FACILITY_TRAIN_COLOSSUS {
        ut::COLOSSUS
    } else if ability == ab::ROBOTICS_FACILITY_TRAIN_WARP_PRISM {
        ut::WARP_PRISM
    } else if ability == ab::ROBOTICS_FACILITY_TRAIN_OBSERVER {
        ut::OBSERVER
    } else if ability == ab::ROBOTICS_FACILITY_TRAIN_IMMORTAL {
        ut::IMMORTAL
    } else if ability == ab::STARGATE_TRAIN_TEMPEST {
        ut::TEMPEST
    } else if ability == ab::STARGATE_TRAIN_ORACLE {
        ut::ORACLE
    } else if ability == ab::STARGATE_TRAIN_VOID_RAY {
        ut::VOID_RAY
    } else if ability == ab::STARGATE_TRAIN_PHOENIX {
        ut::PHOENIX
    } else if ability == ab::STARGATE_TRAIN_CARRIER {
        ut::CARRIER
    } else {
        ut::NOT_A_UNIT
    }
}

/// How many times `t` occurs in `s`.
pub open spec fn occurrences(s: Seq<UnitType>, t: UnitType) -> nat
    decreases s.len(),
{
    if s.len() == 0 {
        0
    } else {
        occurrences(s.drop_last(), t) + if s.last() == t { 1nat } else { 0nat }
    }
}

proof fn lemma_occurrences_bounded(s: Seq<UnitType>, t: UnitType)
    ensures
        occurrences(s, t) <= s.len(),
    decreases s.len(),
{
    if s.len() > 0 {
        lemma_occurrences_bounded(s.drop_last(), t);
    }
}

/// Adds one to the count stored under `key`, starting from zero.
pub fn increment_map<T: std::hash::Hash + Eq>(map: &mut HashMap<T, usize>, key: T)
    requires
        obeys_key_model::<T>(),
        old(map)@.contains_key(key) ==> old(map)@[key] < usize::MAX,
    ensures
        final(map)@ == old(map)@.insert(
            key,
            (if old(map)@.contains_key(key) { old(map)@[key] + 1 } else { 1 }) as usize,
        ),
{
    let new_count: usize = match map.get(&key) {
        Some(c) => *c + 1,
        None => 1,
    };
    map.insert(key, new_count);
}

/// Counts how many units of each type the list holds.
pub fn count_unit_types(units: &Vec<UnitType>) -> (counts: HashMap<UnitType, usize>)
    ensures
        forall|t: UnitType| #[trigger] counts@.contains_key(t) <==> occurrences(units@, t) > 0,
        forall|t: UnitType| #[trigger] counts@.contains_key(t) ==> counts@[t] == occurrences(units@, t),
{
    let mut counts: HashMap<UnitType, usize> = HashMap::new();
    let mut i: usize = 0;
    while i < units.len()
        invariant
            i <= units.len(),
            forall|t: UnitType| #[trigger] counts@.contains_key(t) <==> occurrences(units@.take(i as int), t) > 0,
            forall|t: UnitType| #[trigger] counts@.contains_key(t) ==> counts@[t] == occurrences(units@.take(i as int), t),
        decreases units.len() - i,
    {
        let u = units[i];
        proof {
            assert(units@.take(i + 1).drop_last() =~= units@.take(i as int));
            lemma_occurrences_bounded(units@.take(i as int), u);
        }
        increment_map(&mut counts, u);
        i = i + 1;
        proof {
            assert forall|t: UnitType| #[trigger] counts@.contains_key(t) <==> occurrences(units@.take(i as int), t) > 0 by {
                assert(units@.take(i as int).drop_last() =~= units@.take(i - 1));
            }
            assert forall|t: UnitType| #[trigger] counts@.contains_key(t) implies counts@[t] == occurrences(units@.take(i as int), t) by {
                assert(units@.take(i as int).drop_last() =~= units@.take(i - 1));
            }
        }
    }
    assert(units@.take(units.len() as int) =~= units@);
    counts
}

} // verus!

verus! {

/// What the bot's rules read of a unit that the game reports.
#[derive(Debug, Clone, Copy, PartialEq, Eq, Structural)]
pub struct UnitSnapshot {
    pub tag: u64,
    pub unit_type: UnitType,
    pub position: Point,
    pub is_mineral: bool,
    pub is_geyser: bool,
    pub is_townhall: bool,
    pub is_carrying_resource: bool,
}

impl Tag {
    /// The tag of an observed unit.
    pub fn from_unit(unit: &UnitSnapshot) -> (t: Tag)
        ensures
            t.tag == unit.tag,
            t.unit_type == unit.unit_type,
    {
        Tag { tag: unit.tag, unit_type: unit.unit_type }
    }
}

/// What an order is aimed at.
#[derive(Debug, Clone, Copy, PartialEq, Eq, Structural)]
pub enum Target {
    /// The order needs no target.
    NoTarget,
    /// The unit with this tag.
    Tag(u64),
    /// A map position.
    Pos(Point),
}


/// The display name of a Protoss building type; other types are "not
/// implemented".
pub open spec fn building_name(unit: UnitType) -> Seq<char> {
    if unit == ut::NEXUS {
        "Nexus"@
    } else if unit == ut::ASSIMILATOR {
        "Assimilator"@
    } else if unit == ut::ASSIMILATOR_RICH {
        "AssimilatorRich"@
    } else if unit == ut::PYLON {
        "Pylon"@
    } else if unit == ut::GATEWAY {
        "Gateway"@
    } else if unit == ut::WARP_GATE {
        "WarpGate"@
    } else if unit == ut::FORGE {
        "Forge"@
    } else if unit == ut::FLEET_BEACON {
        "FleetBeacon"@
    } else if unit == ut::TWILIGHT_COUNCIL {
        "TwilightCouncil"@
    } else if unit == ut::PHOTON_CANNON {
        "PhotonCannon"@
    } else if unit == ut::STARGATE {
        "Stargate"@
    } else if unit == ut::TEMPLAR_ARCHIVE {
        "TemplarArchive"@
    } else if unit == ut::DARK_SHRINE {
        "DarkShrine"@
    } else if unit == ut::ROBOTICS_BAY {
        "RoboticsBay"@
    } else if unit == ut::ROBOTICS_FACILITY {
        "RoboticsFacility"@
    } else if unit == ut::CYBERNETICS_CORE {
        "CyberneticsCore"@
    } else if unit == ut::SHIELD_BATTERY {
        "ShieldBattery"@
    } else {
        "not implemented"@
    }
}

/// The display name of a Protoss building type; other types are "not
/// implemented".
pub fn building_names(unit: UnitType) -> (s: String)
    ensures
        s@ == building_name(unit),
{
    let name = if unit == ut::NEXUS {
            "Nexus"
        } else if unit == ut::ASSIMILATOR {
            "Assimilator"
        } else if unit == ut::ASSIMILATOR_RICH {
            "AssimilatorRich"
        } else if unit == ut::PYLON {
            "Pylon"
        } else if unit == ut::GATEWAY {
            "Gateway"
        } else if unit == ut::WARP_GATE {
            "WarpGate"
        } else if unit == ut::FORGE {
            "Forge"
        } else if unit == ut::FLEET_BEACON {
            "FleetBeacon"
        } else if unit == ut::TWILIGHT_COUNCIL {
            "TwilightCouncil"
        } else if unit == ut::PHOTON_CANNON {
            "PhotonCannon"
        } else if unit == ut::STARGATE {
            "Stargate"
        } else if unit == ut::TEMPLAR_ARCHIVE {
            "TemplarArchive"
        } else if unit == ut::DARK_SHRINE {
            "DarkShrine"
        } else if unit == ut::ROBOTICS_BAY {
            "RoboticsBay"
        } else if unit == ut::ROBOTICS_FACILITY {
            "RoboticsFacility"
        } else if unit == ut::CYBERNETICS_CORE {
            "CyberneticsCore"
        } else if unit == ut::SHIELD_BATTERY {
            "ShieldBattery"
        } else {
            "not implemented"
        };
    String::from_str(name)
}

} // verus!
