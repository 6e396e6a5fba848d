//! Numeric identifiers of the abilities that the bot's rules name.
use crate::ids::Ability;

use vstd::prelude::*;

verus! {

pub const SMART: Ability = 1;
pub const ATTACK_ATTACK_TOWARDS: Ability = 24;
pub const GATEWAY_TRAIN_ZEALOT: Ability = 916;
pub const GATEWAY_TRAIN_STALKER: Ability = 917;
pub const GATEWAY_TRAIN_HIGH_TEMPLAR: Ability = 919;
pub const GATEWAY_TRAIN_DARK_TEMPLAR: Ability = 920;
pub const GATEWAY_TRAIN_SENTRY: Ability = 921;
pub const TRAIN_ADEPT: Ability = 922;
pub const STARGATE_TRAIN_PHOENIX: Ability = 946;
pub const STARGATE_TRAIN_CARRIER: Ability = 948;
pub const STARGATE_TRAIN_VOID_RAY: Ability = 950;
pub const STARGATE_TRAIN_ORACLE: Ability = 954;
pub const STARGATE_TRAIN_TEMPEST: Ability = 955;
pub const ROBOTICS_FACILITY_TRAIN_WARP_PRISM: Ability = 976;
pub const ROBOTICS_FACILITY_TRAIN_OBSERVER: Ability = 977;
pub const ROBOTICS_FACILITY_TRAIN_COLOSSUS: Ability = 978;
pub const ROBOTICS_FACILITY_TRAIN_IMMORTAL: Ability = 979;
pub const TRAIN_DISRUPTOR: Ability = 994;
pub const NEXUS_TRAIN_PROBE: Ability = 1006;
pub const FORGE_RESEARCH_PROTOSS_GROUND_WEAPONS_LEVEL_1: Ability = 1062;
pub const FORGE_RESEARCH_PROTOSS_GROUND_WEAPONS_LEVEL_2: Ability = 1063;
pub const FORGE_RESEARCH_PROTOSS_GROUND_WEAPONS_LEVEL_3: Ability = 1064;
pub const WARP_GATE_TRAIN_ZEALOT: Ability = 1413;
pub const WARP_GATE_TRAIN_STALKER: Ability = 1414;
pub const RESEARCH_WARP_GATE: Ability = 1568;
pub const RESEARCH_CHARGE: Ability = 1592;
pub const STOP: Ability = 3665;
pub const HARVEST_RETURN: Ability = 3667;
pub const EFFECT_CHRONO_BOOST_ENERGY_COST: Ability = 3755;
pub const MOVE: Ability = 3794;

} // verus!
