//! Whole-number records read by the balance calculator.

use vstd::prelude::*;

verus! {

#[derive(Debug, Clone, Default)]
pub struct RoomBuild {
    pub cost_per_tile: i32,
    pub min_tiles: Option<u32>,
    pub max_tiles: Option<u32>,
}

#[derive(Debug, Clone, Default)]
pub struct SpellCost {
    pub mana: i32,
    pub gold: i32,
    pub health: i32,
}

#[derive(Debug, Clone, Default)]
pub struct ResourceConfig {
    pub gold: i32,
    pub mana: i32,
    pub food: i32,
}

#[derive(Debug, Clone, Default)]
pub struct CapacityConfig {
    pub max_gold: i32,
    pub max_mana: i32,
}

} // verus!
