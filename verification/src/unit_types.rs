//! Numeric identifiers of the unit types that the bot's rules name.
use crate::ids::UnitType;

use vstd::prelude::*;

verus! {

pub const NOT_A_UNIT: UnitType = 0;
pub const COLOSSUS: UnitType = 4;
pub const NEXUS: UnitType = 59;
pub const PYLON: UnitType = 60;
pub const ASSIMILATOR: UnitType = 61;
pub const GATEWAY: UnitType = 62;
pub const FORGE: UnitType = 63;
pub const FLEET_BEACON: UnitType = 64;
pub const TWILIGHT_COUNCIL: UnitType = 65;
pub const PHOTON_CANNON: UnitType = 66;
pub const STARGATE: UnitType = 67;
pub const TEMPLAR_ARCHIVE: UnitType = 68;
pub const DARK_SHRINE: UnitType = 69;
pub const ROBOTICS_BAY: UnitType = 70;
pub const ROBOTICS_FACILITY: UnitType = 71;
pub const CYBERNETICS_CORE: UnitType = 72;
pub const ZEALOT: UnitType = 73;
pub const STALKER: UnitType = 74;
pub const HIGH_TEMPLAR: UnitType = 75;
pub const DARK_TEMPLAR: UnitType = 76;
pub const SENTRY: UnitType = 77;
pub const PHOENIX: UnitType = 78;
pub const CARRIER: UnitType = 79;
pub const VOID_RAY: UnitType = 80;
pub const WARP_PRISM: UnitType = 81;
pub const OBSERVER: UnitType = 82;
pub const IMMORTAL: UnitType = 83;
pub const PROBE: UnitType = 84;
pub const CREEP_TUMOR: UnitType = 87;
pub const WARP_GATE: UnitType = 133;
pub const WARP_PRISM_PHASING: UnitType = 136;
pub const RICH_MINERAL_FIELD: UnitType = 146;
pub const RICH_MINERAL_FIELD_750: UnitType = 147;
pub const ADEPT: UnitType = 311;
pub const MINERAL_FIELD: UnitType = 341;
pub const MINERAL_FIELD_750: UnitType = 483;
pub const ORACLE: UnitType = 495;
pub const TEMPEST: UnitType = 496;
pub const LAB_MINERAL_FIELD: UnitType = 665;
pub const LAB_MINERAL_FIELD_750: UnitType = 666;
pub const DISRUPTOR: UnitType = 694;
pub const PURIFIER_RICH_MINERAL_FIELD: UnitType = 796;
pub const PURIFIER_RICH_MINERAL_FIELD_750: UnitType = 797;
pub const PURIFIER_MINERAL_FIELD: UnitType = 884;
pub const PURIFIER_MINERAL_FIELD_750: UnitType = 885;
pub const BATTLE_STATION_MINERAL_FIELD: UnitType = 886;
pub const BATTLE_STATION_MINERAL_FIELD_750: UnitType = 887;
pub const SHIELD_BATTERY: UnitType = 1910;
pub const ASSIMILATOR_RICH: UnitType = 1994;
pub const MINERAL_FIELD_450: UnitType = 1996;
pub const MINERAL_FIELD_OPAQUE: UnitType = 1997;
pub const MINERAL_FIELD_OPAQUE_900: UnitType = 1998;

} // verus!
