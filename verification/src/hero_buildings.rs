//! Hero buildings: what razing one does, and how it is drawn.

use vstd::prelude::*;
use crate::text::{decimal, decimal_string};

verus! {

/// What destroying a hero building does.
#[derive(Debug, Clone)]
pub enum DestructionEffect {
    WinGame,
    ReduceSpawnRate { percent: i32 },
    ReduceHeroSpeed { percent: i32 },
    ReduceHeroStats { attack: i32, defense: i32 },
    OpenPath,
}

/// The tile a hero building is drawn with.
#[derive(Debug, Clone)]
pub struct BuildingVisual {
    pub tile: String,
}

/// The player-facing description of a destruction effect, if it has one.
pub open spec fn description(effect: DestructionEffect) -> Option<Seq<char>> {
    match effect {
        DestructionEffect::WinGame => Some("the heroes' seat of power has fallen"@),
        DestructionEffect::ReduceSpawnRate { percent } => Some(
            "hero reinforcements slowed by "@ + decimal(percent as int) + "%"@,
        ),
        DestructionEffect::ReduceHeroSpeed { percent } => Some(
            "heroes slowed by "@ + decimal(percent as int) + "%"@,
        ),
        DestructionEffect::ReduceHeroStats { attack, defense } => Some(
            "every hero loses "@ + decimal(attack as int) + " attack and "@ + decimal(
                defense as int,
            ) + " defence"@,
        ),
        DestructionEffect::OpenPath => None,
    }
}

impl DestructionEffect {
    /// What razing this building buys the keeper, in the player's terms.
    /// Opening a path has nothing to report beyond what the player sees.
    pub fn describe(&self) -> (r: Option<String>)
        ensures
            match r {
                Some(s) => description(*self) == Some(s@),
                None => description(*self) is None,
            },
    {
        match self {
            DestructionEffect::WinGame => Some(String::from_str("the heroes' seat of power has fallen")),
            DestructionEffect::ReduceSpawnRate { percent } => {
                let mut s = String::from_str("hero reinforcements slowed by ");
                let n = decimal_string(*percent);
                s.append(n.as_str());
                s.append("%");
                Some(s)
            },
            DestructionEffect::ReduceHeroSpeed { percent } => {
                let mut s = String::from_str("heroes slowed by ");
                let n = decimal_string(*percent);
                s.append(n.as_str());
                s.append("%");
                Some(s)
            },
            DestructionEffect::ReduceHeroStats { attack, defense } => {
                let mut s = String::from_str("every hero loses ");
                let a = decimal_string(*attack);
                s.append(a.as_str());
                s.append(" attack and ");
                let d = decimal_string(*defense);
                s.append(d.as_str());
                s.append(" defence");
                Some(s)
            },
            DestructionEffect::OpenPath => None,
        }
    }
}

} // verus!
