//! What an imp's finished dig does to the tile and to the treasury.

use vstd::prelude::*;
use crate::tile_state::Ownership;

verus! {

/// The deposit a tile holds, as the tile-type table classifies it.
#[derive(Debug, Clone, Copy, PartialEq, Eq, Structural)]
pub enum Deposit {
    GoldVein,
    /// Mined forever: digging never uses it up.
    GemSeam,
    ManaCrystal,
    /// Earth, rock and everything else that yields nothing.
    Plain,
}

/// The parts of a map tile a dig reads and writes.
#[derive(Debug, Clone, Copy, PartialEq, Eq, Structural)]
pub struct DigTile {
    pub deposit: Deposit,
    /// Whether the tile is plain unclaimed floor, as a dug-out tile becomes.
    pub floor: bool,
    pub ownership: Ownership,
    pub marked_for_dig: bool,
    pub resources_remaining: Option<u32>,
    pub room_id: Option<usize>,
}

/// The player's gold and mana, with their caps.
#[derive(Debug, Clone, Copy, PartialEq, Eq, Structural)]
pub struct Treasury {
    pub gold: i32,
    pub max_gold: i32,
    pub mana: i32,
    pub max_mana: i32,
}

/// What becomes of the "treasury full" warning.
#[derive(Debug, Clone, Copy, PartialEq, Eq, Structural)]
pub enum TreasuryWarning {
    /// Gold overflowed onto the floor: warn the player (once).
    Raise,
    /// The vault took the whole haul: the next overflow is news again.
    Clear,
    Unchanged,
}

/// What the caller still has to do after a dig: credit gold to the player,
/// drop a pile of gold that did not fit on the dug tile, and update the
/// warning.
#[derive(Debug, Clone, Copy, PartialEq, Eq, Structural)]
pub struct DigOutcome {
    pub gold_credit: i32,
    pub pile: Option<i32>,
    pub warning: TreasuryWarning,
}

/// The per-dig rewards the game's configuration gives deposits that do not
/// declare their own.
#[derive(Debug, Clone, Copy)]
pub struct DigRewards {
    pub gold_vein_reward: i32,
    pub gem_seam_reward: i32,
    pub mana_crystal_reward: i32,
}

/// What one dig of a deposit yields: the tile's own `mine_value` where it
/// declares one, else the configured reward for its kind (nothing for plain
/// tiles).
pub open spec fn per_dig_yield(deposit: Deposit, mine_value: Option<i32>, rewards: DigRewards) -> i32 {
    match mine_value {
        Some(v) => v,
        None => match deposit {
            Deposit::GoldVein => rewards.gold_vein_reward,
            Deposit::GemSeam => rewards.gem_seam_reward,
            Deposit::ManaCrystal => rewards.mana_crystal_reward,
            Deposit::Plain => 0,
        },
    }
}

/// How much one dig of a deposit yields.
pub fn mine_yield_per_dig(deposit: Deposit, mine_value: Option<i32>, rewards: &DigRewards) -> (r: i32)
    ensures
        r == per_dig_yield(deposit, mine_value, *rewards),
{
    let fallback = match deposit {
        Deposit::GoldVein => rewards.gold_vein_reward,
        Deposit::GemSeam => rewards.gem_seam_reward,
        Deposit::ManaCrystal => rewards.mana_crystal_reward,
        Deposit::Plain => 0,
    };
    match mine_value {
        Some(v) => v,
        None => fallback,
    }
}

/// `per_dig`, capped by what the deposit has left where it keeps count.
pub open spec fn capped_yield(per_dig: i32, remaining: Option<u32>) -> i32 {
    match remaining {
        None => per_dig,
        Some(r) => if (r as i32) < per_dig {
            r as i32
        } else {
            per_dig
        },
    }
}

/// The gold and the mana a dig of `tile` brings in.
pub open spec fn dig_gains(tile: DigTile, per_dig: i32) -> (i32, i32) {
    match tile.deposit {
        Deposit::GoldVein => (capped_yield(per_dig, tile.resources_remaining), 0),
        Deposit::GemSeam => (per_dig, 0),
        Deposit::ManaCrystal => (0, capped_yield(per_dig, tile.resources_remaining)),
        Deposit::Plain => (0, 0),
    }
}

/// A dug-out tile: unclaimed floor with no mark, no deposit and no room.
pub open spec fn dug_out() -> DigTile {
    DigTile {
        deposit: Deposit::Plain,
        floor: true,
        ownership: Ownership::Unclaimed,
        marked_for_dig: false,
        resources_remaining: None,
        room_id: None,
    }
}

/// One finished dig: an unmarked tile changes nothing; a gem seam stays as
/// it is and credits its yield; any other tile becomes unclaimed floor, and
/// its gold goes to the treasury as far as there is space, the rest onto
/// the floor, while its mana fills the treasury up to the cap.
pub open spec fn dig_step(tile: DigTile, treasury: Treasury, per_dig: i32) -> (
    DigTile,
    Treasury,
    DigOutcome,
) {
    let nothing = DigOutcome { gold_credit: 0, pile: None, warning: TreasuryWarning::Unchanged };
    let (gold, mana) = dig_gains(tile, per_dig);
    if !tile.marked_for_dig {
        (tile, treasury, nothing)
    } else if tile.deposit == Deposit::GemSeam {
        (tile, treasury, DigOutcome { gold_credit: gold, pile: None, warning: TreasuryWarning::Unchanged })
    } else if gold > 0 {
        let space = treasury.max_gold - treasury.gold;
        if space < gold {
            (
                dug_out(),
                treasury,
                DigOutcome {
                    gold_credit: if space > 0 {
                        space as i32
                    } else {
                        0
                    },
                    pile: Some((gold - space) as i32),
                    warning: TreasuryWarning::Raise,
                },
            )
        } else {
            (dug_out(), treasury, DigOutcome { gold_credit: gold, pile: None, warning: TreasuryWarning::Clear })
        }
    } else if mana > 0 {
        let filled = if treasury.mana + mana < treasury.max_mana {
            treasury.mana + mana
        } else {
            treasury.max_mana as int
        };
        (dug_out(), Treasury { mana: filled as i32, ..treasury }, nothing)
    } else {
        (dug_out(), treasury, nothing)
    }
}

/// The sums a dig works out fit in 32 bits.
pub open spec fn dig_fits(tile: DigTile, treasury: Treasury, per_dig: i32) -> bool {
    let (gold, mana) = dig_gains(tile, per_dig);
    tile.marked_for_dig && tile.deposit != Deposit::GemSeam ==> {
        &&& gold > 0 ==> i32::MIN <= treasury.max_gold - treasury.gold <= i32::MAX && i32::MIN <= gold
            - (treasury.max_gold - treasury.gold) <= i32::MAX
        &&& gold <= 0 && mana > 0 ==> treasury.mana + mana <= i32::MAX
    }
}

/// Complete digging a tile: update the tile and the treasury's mana, and
/// say what gold to credit and to pile up, and what becomes of the
/// treasury-full warning.
pub fn complete_dig(tile: &mut DigTile, treasury: &mut Treasury, per_dig: i32) -> (o: DigOutcome)
    requires
        dig_fits(*old(tile), *old(treasury), per_dig),
    ensures
        (*final(tile), *final(treasury), o) == dig_step(*old(tile), *old(treasury), per_dig),
        final(treasury).gold == old(treasury).gold,
        final(treasury).max_gold == old(treasury).max_gold,
        final(treasury).max_mana == old(treasury).max_mana,
        old(tile).marked_for_dig && old(tile).deposit == Deposit::ManaCrystal && dig_gains(
            *old(tile),
            per_dig,
        ).1 > 0 ==> {
            let m = dig_gains(*old(tile), per_dig).1;
            &&& final(treasury).mana <= old(treasury).mana + m
            &&& final(treasury).mana <= old(treasury).max_mana
            &&& (final(treasury).mana == old(treasury).mana + m || final(treasury).mana
                == old(treasury).max_mana)
        },
{
    if !tile.marked_for_dig {
        return DigOutcome { gold_credit: 0, pile: None, warning: TreasuryWarning::Unchanged };
    }
    let (gold, mana): (i32, i32) = match tile.deposit {
        Deposit::GoldVein => (
            match tile.resources_remaining {
                None => per_dig,
                Some(r) => {
                    let left = r as i32;
                    if left < per_dig {
                        left
                    } else {
                        per_dig
                    }
                },
            },
            0,
        ),
        Deposit::GemSeam => (per_dig, 0),
        Deposit::ManaCrystal => (
            0,
            match tile.resources_remaining {
                None => per_dig,
                Some(r) => {
                    let left = r as i32;
                    if left < per_dig {
                        left
                    } else {
                        per_dig
                    }
                },
            },
        ),
        Deposit::Plain => (0, 0),
    };
    if tile.deposit == Deposit::GemSeam {
        return DigOutcome { gold_credit: gold, pile: None, warning: TreasuryWarning::Unchanged };
    }
    *tile = DigTile {
        deposit: Deposit::Plain,
        floor: true,
        ownership: Ownership::Unclaimed,
        marked_for_dig: false,
        resources_remaining: None,
        room_id: None,
    };
    if gold > 0 {
        let space = treasury.max_gold - treasury.gold;
        if space < gold {
            let credit = if space > 0 {
                space
            } else {
                0
            };
            DigOutcome { gold_credit: credit, pile: Some(gold - space), warning: TreasuryWarning::Raise }
        } else {
            DigOutcome { gold_credit: gold, pile: None, warning: TreasuryWarning::Clear }
        }
    } else {
        if mana > 0 {
            let sum = treasury.mana + mana;
            treasury.mana = if sum < treasury.max_mana {
                sum
            } else {
                treasury.max_mana
            };
        }
        DigOutcome { gold_credit: 0, pile: None, warning: TreasuryWarning::Unchanged }
    }
}

/// Mining a mana crystal adds its yield to the mana, but never past the cap:
/// the new mana is at most the old mana plus the yield, at most the cap, and
/// equal to one of them, so below the cap the whole yield arrives. The gold
/// and the caps are untouched, and the crystal is dug out.
pub proof fn mana_fills_to_the_cap(tile: DigTile, treasury: Treasury, per_dig: i32)
    requires
        tile.marked_for_dig,
        tile.deposit == Deposit::ManaCrystal,
        dig_gains(tile, per_dig).1 > 0,
        dig_fits(tile, treasury, per_dig),
    ensures
        ({
            let m = dig_gains(tile, per_dig).1;
            let after = dig_step(tile, treasury, per_dig).1;
            &&& after.mana <= treasury.mana + m
            &&& after.mana <= treasury.max_mana
            &&& (after.mana == treasury.mana + m || after.mana == treasury.max_mana)
            &&& treasury.mana + m < treasury.max_mana ==> after.mana == treasury.mana + m
            &&& after.gold == treasury.gold && after.max_gold == treasury.max_gold
                && after.max_mana == treasury.max_mana
            &&& !dig_step(tile, treasury, per_dig).0.marked_for_dig
            &&& dig_step(tile, treasury, per_dig).0.ownership == Ownership::Unclaimed
        }),
{
}

/// What a crystal or vein yields: the per-dig amount, or what is left of the
/// deposit if that is less.
pub proof fn yield_is_capped_by_what_is_left(tile: DigTile, per_dig: i32)
    requires
        tile.deposit == Deposit::ManaCrystal || tile.deposit == Deposit::GoldVein,
    ensures
        ({
            let got = if tile.deposit == Deposit::ManaCrystal {
                dig_gains(tile, per_dig).1
            } else {
                dig_gains(tile, per_dig).0
            };
            &&& got <= per_dig
            &&& tile.resources_remaining is None ==> got == per_dig
            &&& tile.resources_remaining matches Some(r) ==> got <= r as i32 && (got == per_dig || got
                == r as i32)
        }),
{
}

/// Gem seams are never used up: digging a marked seam leaves the tile as it
/// was, still marked, and credits one dig's yield.
pub proof fn gem_seams_are_never_used_up(tile: DigTile, treasury: Treasury, per_dig: i32)
    requires
        tile.marked_for_dig,
        tile.deposit == Deposit::GemSeam,
    ensures
        dig_step(tile, treasury, per_dig).0 == tile,
        dig_step(tile, treasury, per_dig).1 == treasury,
        dig_step(tile, treasury, per_dig).2.gold_credit == per_dig,
        dig_step(tile, treasury, per_dig).2.pile is None,
{
}

/// No gold is lost or made: with the treasury within its cap, the gold a
/// dug-out tile yields is exactly what is credited plus what is piled up,
/// and gold is piled up exactly when it does not fit.
pub proof fn dug_gold_is_kept(tile: DigTile, treasury: Treasury, per_dig: i32)
    requires
        tile.marked_for_dig,
        tile.deposit != Deposit::GemSeam,
        0 <= treasury.gold <= treasury.max_gold,
        dig_gains(tile, per_dig).0 > 0,
    ensures
        ({
            let o = dig_step(tile, treasury, per_dig).2;
            let gold = dig_gains(tile, per_dig).0;
            &&& o.gold_credit + match o.pile {
                Some(p) => p as int,
                None => 0int,
            } == gold
            &&& (o.pile is Some) == (gold > treasury.max_gold - treasury.gold)
        }),
{
}

} // verus!
