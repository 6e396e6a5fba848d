//! Numeric identifiers of the upgrades that the bot's rules name.
use crate::ids::Upgrade;

use vstd::prelude::*;

verus! {

pub const PROTOSS_GROUND_WEAPONS_LEVEL_1: Upgrade = 39;
pub const PROTOSS_GROUND_WEAPONS_LEVEL_2: Upgrade = 40;
pub const PROTOSS_GROUND_WEAPONS_LEVEL_3: Upgrade = 41;
pub const PROTOSS_GROUND_ARMORS_LEVEL_1: Upgrade = 42;
pub const PROTOSS_GROUND_ARMORS_LEVEL_2: Upgrade = 43;
pub const PROTOSS_GROUND_ARMORS_LEVEL_3: Upgrade = 44;
pub const PROTOSS_SHIELDS_LEVEL_1: Upgrade = 45;
pub const PROTOSS_SHIELDS_LEVEL_2: Upgrade = 46;
pub const PROTOSS_SHIELDS_LEVEL_3: Upgrade = 47;
pub const OBSERVER_GRAVITIC_BOOSTER: Upgrade = 48;
pub const GRAVITIC_DRIVE: Upgrade = 49;
pub const EXTENDED_THERMAL_LANCE: Upgrade = 50;
pub const PSI_STORM_TECH: Upgrade = 52;
pub const PROTOSS_AIR_WEAPONS_LEVEL_1: Upgrade = 78;
pub const PROTOSS_AIR_WEAPONS_LEVEL_2: Upgrade = 79;
pub const PROTOSS_AIR_WEAPONS_LEVEL_3: Upgrade = 80;
pub const PROTOSS_AIR_ARMORS_LEVEL_1: Upgrade = 81;
pub const PROTOSS_AIR_ARMORS_LEVEL_2: Upgrade = 82;
pub const PROTOSS_AIR_ARMORS_LEVEL_3: Upgrade = 83;
pub const WARP_GATE_RESEARCH: Upgrade = 84;
pub const CHARGE: Upgrade = 86;
pub const BLINK_TECH: Upgrade = 87;
pub const ANION_PULSE_CRYSTALS: Upgrade = 112;
pub const ADEPT_PIERCING_ATTACK: Upgrade = 130;
pub const DARK_TEMPLAR_BLINK_UPGRADE: Upgrade = 141;
pub const VOID_RAY_SPEED_UPGRADE: Upgrade = 288;
pub const TEMPEST_GROUND_ATTACK_UPGRADE: Upgrade = 296;

} // verus!
