//! Outcomes of trying to cast a spell, and whose creatures a spell may
//! target.

use vstd::prelude::*;
use crate::combat::taxicab;
use crate::text::str_equal;
use crate::tile_state::TilePos;

verus! {

/// Result of a spell cast attempt.
#[derive(Debug, Clone, Copy, PartialEq, Eq, Structural)]
pub enum CastResult {
    Success,
    InsufficientMana,
    InsufficientGold,
    InvalidTarget,
    OnCooldown,
    OutOfRange,
    MaxCapReached,
    /// The spell declares `requires_visibility` and the target is fogged.
    NotVisible,
    /// The target's allegiance is not in the spell's `valid_targets`.
    WrongAllegiance,
}

/// Whether one `valid_targets` category admits a creature, given whether the
/// player owns it: `friendly` and `ally` admit the player's own, `enemy`
/// admits everyone else's, and any other category (`empty` names a tile with
/// no occupant) admits no creature.
pub open spec fn category_admits(category: Seq<char>, is_players: bool) -> bool {
    if category == "friendly"@ || category == "ally"@ {
        is_players
    } else if category == "enemy"@ {
        !is_players
    } else {
        false
    }
}

/// Whether a spell with these `valid_targets` may be cast on a creature: an
/// empty list admits any creature, otherwise some category must admit it.
pub open spec fn allegiance_admits(valid_targets: Seq<String>, is_players: bool) -> bool {
    valid_targets.len() == 0 || exists|i: int|
        0 <= i < valid_targets.len() && category_admits((#[trigger] valid_targets[i])@, is_players)
}

/// Whether a spell with these `valid_targets` may be cast on a creature,
/// given whether the player owns it.
pub fn allegiance_matches(valid_targets: &Vec<String>, owner_is_player: bool) -> (r: bool)
    ensures
        r == allegiance_admits(valid_targets@, owner_is_player),
{
    if valid_targets.len() == 0 {
        return true;
    }
    let mut i: usize = 0;
    while i < valid_targets.len()
        invariant
            i <= valid_targets@.len(),
            forall|j: int|
                0 <= j < i ==> !category_admits((#[trigger] valid_targets@[j])@, owner_is_player),
        decreases valid_targets@.len() - i,
    {
        let category = valid_targets[i].as_str();
        let admits = if str_equal(category, "friendly") || str_equal(category, "ally") {
            owner_is_player
        } else if str_equal(category, "enemy") {
            !owner_is_player
        } else {
            false
        };
        if admits {
            return true;
        }
        i = i + 1;
    }
    false
}

/// What casting checks of a spell: its id, its costs, and how it targets.
#[derive(Debug, Clone)]
pub struct SpellTargeting {
    pub id: String,
    pub cost_mana: i32,
    pub cost_gold: i32,
    /// `tile`, `area`, `creature`, `room` or `global`.
    pub target_type: String,
    pub valid_targets: Vec<String>,
    pub requires_visibility: bool,
    /// How far from the dungeon heart a tile may be targeted; 0 means any
    /// distance.
    pub range: u32,
}

/// What casting checks of the caster: cooldown, purse, and the imp count
/// with the summoning price.
#[derive(Debug, Clone)]
pub struct CasterState {
    pub on_cooldown: bool,
    pub mana: i32,
    pub gold: i32,
    pub imp_count: usize,
    pub max_imps: usize,
    pub summon_base_cost: i32,
    pub summon_cost_per_existing: i32,
}

/// What casting checks of the chosen creature.
#[derive(Debug, Clone, Copy)]
pub struct TargetCreature {
    pub owner_is_player: bool,
    /// Whether the player can see the creature's tile.
    pub visible: bool,
}

/// What casting checks of the chosen target: the tile, whether the player
/// owns and can see it, where the dungeon heart is, and the creature, if
/// one was chosen and exists.
#[derive(Debug, Clone)]
pub struct TargetFacts {
    pub pos: Option<TilePos>,
    pub tile_owned: bool,
    pub tile_visible: bool,
    pub heart: Option<TilePos>,
    pub creature: Option<TargetCreature>,
}

/// The mana summoning another imp costs: the base price plus the price per
/// imp already summoned.
pub open spec fn summon_cost(caster: CasterState) -> int {
    caster.summon_base_cost + (caster.imp_count as i32) * caster.summon_cost_per_existing
}

/// The verdict on the cost checks, in order: cooldown, mana, gold, and for
/// summoning imps the imp cap and the summoning price; `None` if they pass.
pub open spec fn cost_verdict(spell: SpellTargeting, caster: CasterState) -> Option<CastResult> {
    if caster.on_cooldown {
        Some(CastResult::OnCooldown)
    } else if caster.mana < spell.cost_mana {
        Some(CastResult::InsufficientMana)
    } else if caster.gold < spell.cost_gold {
        Some(CastResult::InsufficientGold)
    } else if spell.id@ == "summon_imps"@ && caster.imp_count >= caster.max_imps {
        Some(CastResult::MaxCapReached)
    } else if spell.id@ == "summon_imps"@ && caster.mana < summon_cost(caster) {
        Some(CastResult::InsufficientMana)
    } else {
        None
    }
}

/// The verdict on the target, by the spell's target type.
pub open spec fn target_verdict(spell: SpellTargeting, target: TargetFacts) -> CastResult {
    let t = spell.target_type@;
    if t == "tile"@ || t == "area"@ {
        match target.pos {
            None => CastResult::InvalidTarget,
            Some(pos) => if !target.tile_owned {
                CastResult::InvalidTarget
            } else if spell.requires_visibility && !target.tile_visible {
                CastResult::NotVisible
            } else {
                match target.heart {
                    Some(heart) => if spell.range > 0 && taxicab(pos, heart) > spell.range {
                        CastResult::OutOfRange
                    } else {
                        CastResult::Success
                    },
                    None => CastResult::Success,
                }
            },
        }
    } else if t == "creature"@ {
        match target.creature {
            None => CastResult::InvalidTarget,
            Some(c) => if !allegiance_admits(spell.valid_targets@, c.owner_is_player) {
                CastResult::WrongAllegiance
            } else if spell.requires_visibility && !c.visible {
                CastResult::NotVisible
            } else {
                CastResult::Success
            },
        }
    } else if t == "room"@ {
        if target.pos is None {
            CastResult::InvalidTarget
        } else {
            CastResult::Success
        }
    } else {
        CastResult::Success
    }
}

/// Whether a spell can be cast: the first failing cost check, else the
/// target check.
pub open spec fn cast_verdict(spell: SpellTargeting, caster: CasterState, target: TargetFacts) -> CastResult {
    match cost_verdict(spell, caster) {
        Some(r) => r,
        None => target_verdict(spell, target),
    }
}

/// The checks reach the summoning price of an imp.
pub open spec fn prices_summon(spell: SpellTargeting, caster: CasterState) -> bool {
    &&& spell.id@ == "summon_imps"@
    &&& !caster.on_cooldown
    &&& caster.mana >= spell.cost_mana
    &&& caster.gold >= spell.cost_gold
    &&& caster.imp_count < caster.max_imps
}

/// The checks reach the range of a tile or area spell from the heart.
pub open spec fn measures_range(spell: SpellTargeting, caster: CasterState, target: TargetFacts) -> bool {
    &&& cost_verdict(spell, caster) is None
    &&& (spell.target_type@ == "tile"@ || spell.target_type@ == "area"@)
    &&& target.pos is Some
    &&& target.tile_owned
    &&& !(spell.requires_visibility && !target.tile_visible)
    &&& target.heart is Some
}

/// Check whether a spell can be cast, given what it costs and targets, the
/// caster's state, and the facts about the chosen target.
pub fn can_cast_spell(spell: &SpellTargeting, caster: &CasterState, target: &TargetFacts) -> (r: CastResult)
    requires
        prices_summon(*spell, *caster) ==> i32::MIN <= (caster.imp_count as i32)
            * caster.summon_cost_per_existing <= i32::MAX && i32::MIN <= summon_cost(*caster)
            <= i32::MAX,
        measures_range(*spell, *caster, *target) ==> taxicab(target.pos->0, target.heart->0)
            <= i32::MAX,
    ensures
        r == cast_verdict(*spell, *caster, *target),
        measures_range(*spell, *caster, *target) && spell.range > 0 && taxicab(
            target.pos->0,
            target.heart->0,
        ) > spell.range ==> r == CastResult::OutOfRange,
{
    proof {
        reveal_strlit("tile");
        reveal_strlit("area");
        reveal_strlit("creature");
        reveal_strlit("room");
    }
    if caster.on_cooldown {
        return CastResult::OnCooldown;
    }
    if caster.mana < spell.cost_mana {
        return CastResult::InsufficientMana;
    }
    if caster.gold < spell.cost_gold {
        return CastResult::InsufficientGold;
    }
    if str_equal(spell.id.as_str(), "summon_imps") {
        if caster.imp_count >= caster.max_imps {
            return CastResult::MaxCapReached;
        }
        let count = caster.imp_count as i32;
        let dynamic_cost = caster.summon_base_cost + count * caster.summon_cost_per_existing;
        if caster.mana < dynamic_cost {
            return CastResult::InsufficientMana;
        }
    }
    let kind = spell.target_type.as_str();
    if str_equal(kind, "tile") || str_equal(kind, "area") {
        match target.pos {
            None => CastResult::InvalidTarget,
            Some(pos) => {
                if !target.tile_owned {
                    return CastResult::InvalidTarget;
                }
                if spell.requires_visibility && !target.tile_visible {
                    return CastResult::NotVisible;
                }
                match target.heart {
                    Some(heart) => {
                        let dx: i32 = if pos.x >= heart.x { pos.x - heart.x } else { heart.x - pos.x };
                        let dy: i32 = if pos.y >= heart.y { pos.y - heart.y } else { heart.y - pos.y };
                        let distance = (dx + dy) as u32;
                        if spell.range > 0 && distance > spell.range {
                            CastResult::OutOfRange
                        } else {
                            CastResult::Success
                        }
                    },
                    None => CastResult::Success,
                }
            },
        }
    } else if str_equal(kind, "creature") {
        match target.creature {
            None => CastResult::InvalidTarget,
            Some(c) => {
                if !allegiance_matches(&spell.valid_targets, c.owner_is_player) {
                    return CastResult::WrongAllegiance;
                }
                if spell.requires_visibility && !c.visible {
                    return CastResult::NotVisible;
                }
                CastResult::Success
            },
        }
    } else if str_equal(kind, "room") {
        if target.pos.is_none() {
            CastResult::InvalidTarget
        } else {
            CastResult::Success
        }
    } else {
        CastResult::Success
    }
}

/// A tile or area spell whose costs are met, aimed at an owned tile the
/// player may target, is refused as out of range exactly when it has a range
/// and the tile lies farther from the dungeon heart than that range; within
/// range, or with no range, it is cast.
pub proof fn range_limits_tile_and_area_spells(
    spell: SpellTargeting,
    caster: CasterState,
    target: TargetFacts,
)
    requires
        measures_range(spell, caster, target),
    ensures
        cast_verdict(spell, caster, target) == CastResult::OutOfRange <==> (spell.range > 0
            && taxicab(target.pos->0, target.heart->0) > spell.range),
        cast_verdict(spell, caster, target) != CastResult::OutOfRange ==> cast_verdict(
            spell,
            caster,
            target,
        ) == CastResult::Success,
{
}

/// A creature spell is never cast on a creature its `valid_targets` do not
/// admit.
pub proof fn wrong_allegiance_is_refused(spell: SpellTargeting, caster: CasterState, target: TargetFacts)
    requires
        spell.target_type@ == "creature"@,
        target.creature matches Some(c) && !allegiance_admits(spell.valid_targets@, c.owner_is_player),
    ensures
        cast_verdict(spell, caster, target) != CastResult::Success,
{
    reveal_strlit("tile");
    reveal_strlit("area");
    reveal_strlit("creature");
    assert(spell.target_type@ != "tile"@ && spell.target_type@ != "area"@) by {
        assert("creature"@.len() != "tile"@.len() && "creature"@.len() != "area"@.len());
    }
}

} // verus!
