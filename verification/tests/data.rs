use dungeon_manager::combat::manhattan_distance;
use dungeon_manager::game_config::{get_attack_range, CombatRangesConfig, MapSizeConfig};
use dungeon_manager::hero_buildings::DestructionEffect;
use dungeon_manager::hero_parties::offset_position;
use dungeon_manager::rooms::{room_data_id, room_tile_type};
use dungeon_manager::scenario::{
    default_action_point_radius, default_count, default_level, default_true, HeroPartyBehavior,
};
use dungeon_manager::text::{decimal_string, to_ascii_lower, unsigned_string};
use dungeon_manager::tile_state::TilePos;
use dungeon_manager::tutorial::{TutorialCompletion, TutorialData, TutorialStepData};

#[test]
fn the_training_room_maps_to_its_hall_data_and_back() {
    assert_eq!(room_data_id("training_room"), "training_hall");
    assert_eq!(room_data_id("lair"), "lair");
    assert_eq!(room_tile_type("training_hall"), "training_room");
    assert_eq!(room_tile_type("hatchery"), "hatchery");
    for id in ["training_room", "lair", "prison"] {
        assert_eq!(room_tile_type(room_data_id(id)), id);
    }
}

#[test]
fn destruction_effects_describe_themselves() {
    assert_eq!(
        DestructionEffect::WinGame.describe().as_deref(),
        Some("the heroes' seat of power has fallen")
    );
    assert_eq!(
        DestructionEffect::ReduceSpawnRate { percent: 25 }.describe().as_deref(),
        Some("hero reinforcements slowed by 25%")
    );
    assert_eq!(
        DestructionEffect::ReduceHeroSpeed { percent: -5 }.describe().as_deref(),
        Some("heroes slowed by -5%")
    );
    assert_eq!(
        DestructionEffect::ReduceHeroStats { attack: 3, defense: 0 }.describe().as_deref(),
        Some("every hero loses 3 attack and 0 defence")
    );
    assert_eq!(DestructionEffect::OpenPath.describe(), None);
}

#[test]
fn attack_ranges_by_type_fall_back_to_melee() {
    let ranges = CombatRangesConfig { melee: 1, ranged: 6, magic: 4 };
    assert_eq!(get_attack_range("melee", &ranges), 1);
    assert_eq!(get_attack_range("ranged", &ranges), 6);
    assert_eq!(get_attack_range("magic", &ranges), 4);
    assert_eq!(get_attack_range("siege", &ranges), 1);
    assert_eq!(get_attack_range("Ranged", &ranges), 1);
}

#[test]
fn manhattan_distance_adds_the_axis_gaps() {
    assert_eq!(manhattan_distance(TilePos::new(0, 0), TilePos::new(3, 4)), 7);
    assert_eq!(manhattan_distance(TilePos::new(-2, 5), TilePos::new(1, -1)), 9);
    assert_eq!(manhattan_distance(TilePos::new(7, 7), TilePos::new(7, 7)), 0);
}

#[test]
fn party_members_ring_their_origin_every_nine() {
    let origin = TilePos::new(10, 20);
    let expected = [
        (10, 20),
        (11, 20),
        (9, 20),
        (10, 21),
        (10, 19),
        (11, 21),
        (9, 21),
        (11, 19),
        (9, 19),
    ];
    for (i, &(x, y)) in expected.iter().enumerate() {
        assert_eq!(offset_position(origin, i), TilePos::new(x, y));
        assert_eq!(offset_position(origin, i + 9), TilePos::new(x, y));
    }
}

#[test]
fn scenario_defaults() {
    assert!(default_true());
    assert_eq!(default_level(), 1);
    assert_eq!(default_count(), 1);
    assert_eq!(default_action_point_radius(), 1);
    assert_eq!(HeroPartyBehavior::default(), HeroPartyBehavior::AttackDungeonHeart);
    let size = MapSizeConfig::default();
    assert_eq!((size.width, size.height), (50, 50));
}

fn step(id: &str, title: &str, hint: &str, completion: TutorialCompletion) -> TutorialStepData {
    TutorialStepData {
        id: id.to_string(),
        title: title.to_string(),
        hint: hint.to_string(),
        completion,
    }
}

#[test]
fn a_well_formed_tutorial_has_no_problems() {
    let tutorial = TutorialData {
        steps: vec![
            step("dig", "Dig", "Mark some earth", TutorialCompletion::Dig { target: 3 }),
            step("room", "Build", "Build a lair", TutorialCompletion::Room { room: "lair".to_string() }),
            step("fight", "Fight", "Defend", TutorialCompletion::Combat),
        ],
    };
    assert!(tutorial.validate().is_empty());
    assert!(TutorialData::default().validate().is_empty());
}

#[test]
fn tutorial_problems_are_reported_step_by_step() {
    let tutorial = TutorialData {
        steps: vec![
            step("dig", "Dig", " ", TutorialCompletion::Dig { target: 0 }),
            step("dig", "", "Again", TutorialCompletion::Claim { target: 2 }),
            step("  ", "Blank", "Id", TutorialCompletion::Room { room: "\t".to_string() }),
        ],
    };
    assert_eq!(
        tutorial.validate(),
        vec![
            "tutorial step `dig` has no hint",
            "tutorial step `dig` has a zero target",
            "tutorial step id is empty or duplicated: `dig`",
            "tutorial step `dig` has no title",
            "tutorial step id is empty or duplicated: `  `",
            "tutorial step `  ` has no room id",
        ]
    );
}

#[test]
fn numbers_are_written_in_decimal() {
    assert_eq!(decimal_string(0), "0");
    assert_eq!(decimal_string(-40), "-40");
    assert_eq!(decimal_string(i32::MIN), "-2147483648");
    assert_eq!(decimal_string(i32::MAX), "2147483647");
    assert_eq!(unsigned_string(u64::MAX), "18446744073709551615");
    assert_eq!(unsigned_string(907), "907");
}

#[test]
fn ascii_lowercasing_leaves_other_characters_alone() {
    assert_eq!(to_ascii_lower("MiXeD_Case-9"), "mixed_case-9");
    assert_eq!(to_ascii_lower("ÉCOLE"), "École");
}

use dungeon_manager::rooms::{room_build_cost, BuildData};
use dungeon_manager::technologies::{tech_unlocking_room, TechData, UnlockData};

#[test]
fn rooms_cost_gold_per_tile_and_mana_once() {
    let build = BuildData {
        cost_per_tile: 150,
        mana_cost: 40,
        min_tiles: 1,
        max_tiles: 100,
        dig_required: true,
        requires_claimed: true,
        can_overlap: false,
        allowed_terrain: Vec::new(),
    };
    assert_eq!(room_build_cost(&build, 9), (1350, 40));
    assert_eq!(room_build_cost(&build, 0), (0, 40));
}

fn tech(id: &str, rooms: &[&str]) -> TechData {
    TechData {
        id: id.to_string(),
        name: id.to_string(),
        description: String::new(),
        prerequisites: Vec::new(),
        unlocks: UnlockData {
            rooms: rooms.iter().map(|r| r.to_string()).collect(),
            ..UnlockData::default()
        },
        icon: String::new(),
    }
}

#[test]
fn the_tech_tree_names_what_unlocks_a_room() {
    let techs = vec![tech("mining", &[]), tech("logistics", &["scavenger", "workshop"]), tech("arcana", &["workshop"])];
    assert_eq!(tech_unlocking_room("scavenger", &techs).map(|t| t.id.as_str()), Some("logistics"));
    assert_eq!(tech_unlocking_room("workshop", &techs).map(|t| t.id.as_str()), Some("logistics"));
    assert!(tech_unlocking_room("lair", &techs).is_none());
    assert!(tech_unlocking_room("lair", &Vec::new()).is_none());
}

use dungeon_manager::spell_effects::allegiance_matches;

#[test]
fn spells_respect_the_allegiance_they_name() {
    let targets = |v: &[&str]| v.iter().map(|s| s.to_string()).collect::<Vec<String>>();
    assert!(allegiance_matches(&targets(&[]), true));
    assert!(allegiance_matches(&targets(&[]), false));
    assert!(allegiance_matches(&targets(&["friendly"]), true));
    assert!(!allegiance_matches(&targets(&["friendly"]), false));
    assert!(allegiance_matches(&targets(&["ally"]), true));
    assert!(allegiance_matches(&targets(&["enemy"]), false));
    assert!(!allegiance_matches(&targets(&["enemy"]), true));
    assert!(!allegiance_matches(&targets(&["empty"]), true));
    assert!(!allegiance_matches(&targets(&["empty"]), false));
    assert!(allegiance_matches(&targets(&["empty", "enemy"]), false));
}

#[test]
fn party_members_may_stand_at_the_edge_of_the_map_range() {
    assert_eq!(offset_position(TilePos::new(i32::MAX, 0), 2), TilePos::new(i32::MAX - 1, 0));
    assert_eq!(offset_position(TilePos::new(i32::MIN, i32::MIN), 0), TilePos::new(i32::MIN, i32::MIN));
}
