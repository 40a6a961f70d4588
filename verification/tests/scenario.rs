use dungeon_manager::scenario::{
    validate_scenarios, ActionPointDefinition, ScenarioPlayer, ScenarioPlayerRole, AvailabilityRule, HeroPartyBehavior, HeroPartyDefinition, HeroPartyMember, KnownContent,
    RivalKeeperDefinition, ScenarioAvailability, ScenarioDefinition, ScenarioMap, ScenarioMeta,
};
use dungeon_manager::StringHashSet;

fn set(ids: &[&str]) -> StringHashSet {
    let mut s = StringHashSet::new();
    for id in ids {
        s.insert(id.to_string());
    }
    s
}

fn rule() -> AvailabilityRule {
    AvailabilityRule { available: true, unlocked: false, min_level: None }
}

fn keyed(ids: &[&str]) -> Vec<(String, AvailabilityRule)> {
    ids.iter().map(|id| (id.to_string(), rule())).collect()
}

fn known() -> KnownContent {
    KnownContent {
        monsters: set(&["goblin", "orc"]),
        rooms: set(&["lair", "hatchery"]),
        spells: set(&["heal"]),
        traps: set(&["spike_trap"]),
        heroes: set(&["knight"]),
    }
}

fn scenario() -> ScenarioDefinition {
    ScenarioDefinition {
        meta: ScenarioMeta {
            id: "dark_beginnings".to_string(),
            name: "Dark Beginnings".to_string(),
            description: String::new(),
            author: String::new(),
            intro: Vec::new(),
        },
        map: ScenarioMap {
            path: "maps/level_1.json".to_string(),
            width: None,
            height: None,
            biome: None,
            above_ground: false,
        },
        players: vec![ScenarioPlayer {
            id: "keeper".to_string(),
            role: ScenarioPlayerRole::Human,
            start_gold: 500,
            start_mana: 100,
            max_creatures: Some(20),
            ai_profile: None,
        }],
        action_points: vec![ActionPointDefinition {
            id: "outer_gate".to_string(),
            x: 12,
            y: 10,
            radius: 1,
        }],
        creature_pool: vec![("goblin".to_string(), 4)],
        availability: ScenarioAvailability {
            rooms: keyed(&["lair"]),
            spells: keyed(&["heal"]),
            traps: keyed(&["spike_trap"]),
            creatures: keyed(&["orc"]),
        },
        hero_parties: vec![HeroPartyDefinition {
            id: "first_raid".to_string(),
            behavior: HeroPartyBehavior::AttackDungeonHeart,
            members: vec![HeroPartyMember { hero: "knight".to_string(), level: 1, count: 2 }],
        }],
        rival_keepers: vec![RivalKeeperDefinition {
            ai_profile: "aggressive".to_string(),
            starting_rooms: vec!["hatchery".to_string()],
            preferred_creatures: vec!["goblin".to_string()],
            min_garrison: 3,
            raid_size: 4,
            dig_batch: 2,
            room_size: 9,
        }],
    }
}

#[test]
fn a_scenario_naming_only_known_content_is_clean() {
    assert!(scenario().validate_references(&known()).is_empty());
}

#[test]
fn every_dangling_reference_is_reported_in_check_order() {
    let mut s = scenario();
    s.creature_pool.push(("not_a_creature".to_string(), 1));
    s.availability.rooms = keyed(&["lair", "moat"]);
    s.availability.spells = keyed(&["meteor"]);
    s.availability.traps = keyed(&["boulder"]);
    s.availability.creatures = keyed(&["dragon"]);
    s.hero_parties[0].members.push(HeroPartyMember { hero: "paladin".to_string(), level: 3, count: 1 });
    s.rival_keepers[0].starting_rooms.push("casino".to_string());
    s.rival_keepers[0].preferred_creatures.push("imp".to_string());
    assert_eq!(
        s.validate_references(&known()),
        vec![
            "Scenario 'dark_beginnings' references unknown creature 'not_a_creature'",
            "Scenario 'dark_beginnings' references unknown room 'moat'",
            "Scenario 'dark_beginnings' references unknown spell 'meteor'",
            "Scenario 'dark_beginnings' references unknown trap 'boulder'",
            "Scenario 'dark_beginnings' references unknown creature 'dragon'",
            "Scenario 'dark_beginnings' party 'first_raid' references unknown hero 'paladin'",
            "Scenario 'dark_beginnings' references unknown rival keeper room 'casino'",
            "Scenario 'dark_beginnings' references unknown rival keeper creature 'imp'",
        ]
    );
}

#[test]
fn scenario_validation_catches_missing_ids() {
    let mut scenario = scenario();
    let nothing_known = KnownContent {
        monsters: StringHashSet::new(),
        rooms: StringHashSet::new(),
        spells: StringHashSet::new(),
        traps: StringHashSet::new(),
        heroes: StringHashSet::new(),
    };
    scenario.creature_pool.push(("not_a_creature".to_string(), 1));

    let errors = scenario.validate_references(&nothing_known);

    assert!(errors.iter().any(|e| e.contains("not_a_creature")));
}

#[test]
fn every_scenario_is_checked_in_turn() {
    let clean = scenario();
    let mut broken = scenario();
    broken.meta.id = "second".to_string();
    broken.availability.traps = keyed(&["boulder"]);
    assert_eq!(
        validate_scenarios(&vec![clean, broken], &known()),
        vec!["Scenario 'second' references unknown trap 'boulder'"]
    );
    assert!(validate_scenarios(&Vec::new(), &known()).is_empty());
}
