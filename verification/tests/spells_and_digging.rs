use dungeon_manager::digging::{
    complete_dig, mine_yield_per_dig, Deposit, DigOutcome, DigRewards, DigTile, Treasury,
    TreasuryWarning,
};
use dungeon_manager::spell_effects::{
    can_cast_spell, CastResult, CasterState, SpellTargeting, TargetCreature, TargetFacts,
};
use dungeon_manager::tile_state::{Ownership, TilePos};

fn spell(id: &str, target_type: &str) -> SpellTargeting {
    SpellTargeting {
        id: id.to_string(),
        cost_mana: 50,
        cost_gold: 10,
        target_type: target_type.to_string(),
        valid_targets: Vec::new(),
        requires_visibility: false,
        range: 0,
    }
}

fn caster() -> CasterState {
    CasterState {
        on_cooldown: false,
        mana: 100,
        gold: 100,
        imp_count: 3,
        max_imps: 10,
        summon_base_cost: 10,
        summon_cost_per_existing: 5,
    }
}

fn at(pos: (i32, i32)) -> TargetFacts {
    TargetFacts {
        pos: Some(TilePos::new(pos.0, pos.1)),
        tile_owned: true,
        tile_visible: true,
        heart: Some(TilePos::new(0, 0)),
        creature: None,
    }
}

#[test]
fn costs_are_checked_before_targets_in_order() {
    let fireball = spell("fireball", "area");
    let mut c = caster();
    c.on_cooldown = true;
    c.mana = 0;
    assert!(matches!(can_cast_spell(&fireball, &c, &at((1, 1))), CastResult::OnCooldown));
    c.on_cooldown = false;
    assert!(matches!(can_cast_spell(&fireball, &c, &at((1, 1))), CastResult::InsufficientMana));
    c.mana = 100;
    c.gold = 5;
    assert!(matches!(can_cast_spell(&fireball, &c, &TargetFacts { pos: None, ..at((0, 0)) }), CastResult::InsufficientGold));
    assert!(matches!(can_cast_spell(&fireball, &caster(), &at((1, 1))), CastResult::Success));
}

#[test]
fn summoning_imps_respects_the_cap_and_the_rising_price() {
    let mut summon = spell("summon_imps", "tile");
    summon.cost_mana = 0;
    summon.cost_gold = 0;
    let mut c = caster();
    c.imp_count = 10;
    assert!(matches!(can_cast_spell(&summon, &c, &at((1, 1))), CastResult::MaxCapReached));
    c.imp_count = 4;
    c.mana = 29;
    assert!(matches!(can_cast_spell(&summon, &c, &at((1, 1))), CastResult::InsufficientMana));
    c.mana = 30;
    assert!(matches!(can_cast_spell(&summon, &c, &at((1, 1))), CastResult::Success));
}

#[test]
fn tile_spells_need_an_owned_visible_tile_in_range() {
    let mut s = spell("lightning", "tile");
    s.requires_visibility = true;
    s.range = 5;
    let c = caster();
    assert!(matches!(can_cast_spell(&s, &c, &TargetFacts { pos: None, ..at((0, 0)) }), CastResult::InvalidTarget));
    assert!(matches!(can_cast_spell(&s, &c, &TargetFacts { tile_owned: false, ..at((1, 1)) }), CastResult::InvalidTarget));
    assert!(matches!(can_cast_spell(&s, &c, &TargetFacts { tile_visible: false, ..at((1, 1)) }), CastResult::NotVisible));
    assert!(matches!(can_cast_spell(&s, &c, &at((3, -2))), CastResult::Success));
    assert!(matches!(can_cast_spell(&s, &c, &at((3, -3))), CastResult::OutOfRange));
    assert!(matches!(can_cast_spell(&s, &c, &TargetFacts { heart: None, ..at((30, 30)) }), CastResult::Success));
    s.range = 0;
    assert!(matches!(can_cast_spell(&s, &c, &at((300, 300))), CastResult::Success));
}

#[test]
fn creature_spells_check_allegiance_then_visibility() {
    let mut heal = spell("heal", "creature");
    heal.valid_targets = vec!["friendly".to_string()];
    heal.requires_visibility = true;
    let c = caster();
    let on = |owner_is_player: bool, visible: bool| TargetFacts {
        creature: Some(TargetCreature { owner_is_player, visible }),
        ..at((0, 0))
    };
    assert!(matches!(can_cast_spell(&heal, &c, &TargetFacts { creature: None, ..at((0, 0)) }), CastResult::InvalidTarget));
    assert!(matches!(can_cast_spell(&heal, &c, &on(false, true)), CastResult::WrongAllegiance));
    assert!(matches!(can_cast_spell(&heal, &c, &on(true, false)), CastResult::NotVisible));
    assert!(matches!(can_cast_spell(&heal, &c, &on(true, true)), CastResult::Success));
}

#[test]
fn room_and_global_spells() {
    let c = caster();
    assert!(matches!(can_cast_spell(&spell("haste_room", "room"), &c, &TargetFacts { pos: None, ..at((0, 0)) }), CastResult::InvalidTarget));
    assert!(matches!(can_cast_spell(&spell("haste_room", "room"), &c, &at((9, 9))), CastResult::Success));
    assert!(matches!(can_cast_spell(&spell("armageddon", "global"), &c, &TargetFacts { pos: None, ..at((0, 0)) }), CastResult::Success));
}

fn tile(deposit: Deposit, remaining: Option<u32>) -> DigTile {
    DigTile {
        deposit,
        floor: false,
        ownership: Ownership::Unclaimed,
        marked_for_dig: true,
        resources_remaining: remaining,
        room_id: Some(2),
    }
}

fn treasury(gold: i32, max_gold: i32) -> Treasury {
    Treasury { gold, max_gold, mana: 40, max_mana: 50 }
}

fn dug_out() -> DigTile {
    DigTile {
        deposit: Deposit::Plain,
        floor: true,
        ownership: Ownership::Unclaimed,
        marked_for_dig: false,
        resources_remaining: None,
        room_id: None,
    }
}

#[test]
fn an_unmarked_tile_is_left_alone() {
    let mut t = tile(Deposit::GoldVein, None);
    t.marked_for_dig = false;
    let mut purse = treasury(0, 100);
    let outcome = complete_dig(&mut t, &mut purse, 20);
    assert_eq!(outcome, DigOutcome { gold_credit: 0, pile: None, warning: TreasuryWarning::Unchanged });
    assert!(!t.marked_for_dig && t.deposit == Deposit::GoldVein);
    assert_eq!(purse, treasury(0, 100));
}

#[test]
fn gem_seams_are_mined_forever() {
    let mut t = tile(Deposit::GemSeam, Some(1));
    let mut purse = treasury(100, 100);
    let outcome = complete_dig(&mut t, &mut purse, 25);
    assert_eq!(outcome.gold_credit, 25);
    assert_eq!(outcome.pile, None);
    assert_eq!(t, tile(Deposit::GemSeam, Some(1)));
}

#[test]
fn gold_beyond_the_vault_is_piled_on_the_floor() {
    let mut t = tile(Deposit::GoldVein, Some(15));
    let mut purse = treasury(90, 100);
    let outcome = complete_dig(&mut t, &mut purse, 20);
    assert_eq!(outcome, DigOutcome { gold_credit: 10, pile: Some(5), warning: TreasuryWarning::Raise });
    assert_eq!(t, dug_out());

    let mut t = tile(Deposit::GoldVein, None);
    let mut purse = treasury(10, 100);
    let outcome = complete_dig(&mut t, &mut purse, 20);
    assert_eq!(outcome, DigOutcome { gold_credit: 20, pile: None, warning: TreasuryWarning::Clear });

    let mut t = tile(Deposit::GoldVein, None);
    let mut purse = treasury(100, 100);
    let outcome = complete_dig(&mut t, &mut purse, 20);
    assert_eq!(outcome, DigOutcome { gold_credit: 0, pile: Some(20), warning: TreasuryWarning::Raise });
}

#[test]
fn mana_fills_up_to_its_cap_and_earth_yields_nothing() {
    let mut t = tile(Deposit::ManaCrystal, Some(30));
    let mut purse = treasury(0, 100);
    let outcome = complete_dig(&mut t, &mut purse, 20);
    assert_eq!(outcome.gold_credit, 0);
    assert_eq!(purse.mana, 50);
    assert_eq!(t, dug_out());

    let mut t = tile(Deposit::Plain, None);
    let mut purse = treasury(0, 100);
    let outcome = complete_dig(&mut t, &mut purse, 0);
    assert_eq!(outcome, DigOutcome { gold_credit: 0, pile: None, warning: TreasuryWarning::Unchanged });
    assert_eq!(purse, treasury(0, 100));
    assert_eq!(t, dug_out());
}

#[test]
fn a_tile_declaring_its_yield_overrides_the_configured_reward() {
    let rewards = DigRewards { gold_vein_reward: 10, gem_seam_reward: 25, mana_crystal_reward: 15 };
    assert_eq!(mine_yield_per_dig(Deposit::GemSeam, None, &rewards), 25);
    assert_eq!(mine_yield_per_dig(Deposit::GemSeam, Some(40), &rewards), 40);
    assert_eq!(mine_yield_per_dig(Deposit::ManaCrystal, None, &rewards), 15);
    assert_eq!(mine_yield_per_dig(Deposit::Plain, None, &rewards), 0);
    assert_eq!(mine_yield_per_dig(Deposit::GoldVein, None, &rewards), 10);
}
