//! Game configuration values that are whole numbers or flags, and the combat
//! range lookup that reads them.

use vstd::prelude::*;
use crate::text::str_equal;

verus! {

#[derive(Debug, Clone, Default)]
pub struct PlayerStartingResources {
    pub gold: i32,
    pub mana: i32,
    pub food: i32,
    pub materials: i32,
}

#[derive(Debug, Clone, Default)]
pub struct PlayerInitialCapacity {
    pub max_gold: i32,
    pub max_mana: i32,
    pub max_food: i32,
    pub max_materials: i32,
}

#[derive(Debug, Clone)]
pub struct MapSizeConfig {
    pub width: usize,
    pub height: usize,
}

impl Default for MapSizeConfig {
    /// A 50 by 50 map.
    fn default() -> (r: Self)
        ensures
            r.width == 50,
            r.height == 50,
    {
        MapSizeConfig { width: 50, height: 50 }
    }
}

#[derive(Debug, Clone, Default)]
pub struct FogOfWarConfig {
    pub enabled: bool,
    pub sight_radius: i32,
}

/// How far each kind of attack reaches, in tiles.
#[derive(Debug, Clone, Default)]
pub struct CombatRangesConfig {
    pub melee: i32,
    pub ranged: i32,
    pub magic: i32,
}

/// The range of an attack type: `ranged` and `magic` have their own, and
/// every other type fights at melee range.
pub open spec fn attack_range(attack_type: Seq<char>, ranges: CombatRangesConfig) -> i32 {
    if attack_type == "ranged"@ {
        ranges.ranged
    } else if attack_type == "magic"@ {
        ranges.magic
    } else {
        ranges.melee
    }
}

/// Get the attack range for a given attack type.
pub fn get_attack_range(attack_type: &str, ranges: &CombatRangesConfig) -> (r: i32)
    ensures
        r == attack_range(attack_type@, *ranges),
{
    proof {
        reveal_strlit("melee");
        reveal_strlit("ranged");
        reveal_strlit("magic");
        assert("melee"@.len() == 5 && "ranged"@.len() == 6 && "magic"@.len() == 5);
        assert("melee"@[1] != "magic"@[1]);
    }
    if str_equal(attack_type, "melee") {
        ranges.melee
    } else if str_equal(attack_type, "ranged") {
        ranges.ranged
    } else if str_equal(attack_type, "magic") {
        ranges.magic
    } else {
        ranges.melee
    }
}

} // verus!
