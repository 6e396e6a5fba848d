//! Decision logic of a Protoss StarCraft II bot: building placement,
//! worker assignment, build-order trees, role bookkeeping and the text
//! panes of its status display.
//!
//! Map positions are fixed-point integers (see [`geometry`]); unit, ability
//! and upgrade kinds are the game's numeric identifiers (see [`ids`]).


pub mod geometry;
pub mod keyed;
pub mod micro;
pub mod ids;
pub mod abilities;
pub mod unit_types;
pub mod units;
pub mod upgrades;

pub use units::{
    ability_produces, count_unit_types, is_assimilator, is_minerals, is_protoss_building,
    is_protoss_production, is_protoss_tech, structure_needs_power, Tag,
};
pub mod errors;
pub mod siting;
pub mod text;
pub mod assignment_manager;
pub mod readout;
pub mod army;
pub mod chatter;
pub mod build_tree;
pub mod build_order_definitions;
pub mod knowledge;
pub mod construction;
pub mod bot;
pub mod monitor;
pub mod build_order;
pub mod mining;
pub mod nearest;
pub mod base_manager;
pub mod scouting;
