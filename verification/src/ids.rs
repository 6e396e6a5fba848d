//! The game's numeric identifiers for unit types, abilities and upgrades.
use vstd::prelude::*;

verus! {

/// The game's numeric identifier of a unit type.
pub type UnitType = u32;

/// The game's numeric identifier of an ability.
pub type Ability = u32;

/// The game's numeric identifier of an upgrade.
pub type Upgrade = u32;

} // verus!
