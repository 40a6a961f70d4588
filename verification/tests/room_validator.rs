use dungeon_manager::room_validator::{
    calculate_work_slots, detect_rooms, dungeon_permits_room, get_tile, is_contiguous, neighbours,
    tile_permits_room, validate_room_shape, PlacementRefusal, Room,
};
use dungeon_manager::rooms::{BuildData, RequirementsData};
use dungeon_manager::tile_state::{Ownership, TilePos, TileSet, TileState};
use dungeon_manager::StringHashMap;

fn tile_set(positions: &[(i32, i32)]) -> TileSet {
    let mut tiles = TileSet::new();
    for &(x, y) in positions {
        tiles.insert(TilePos::new(x, y));
    }
    tiles
}

fn tile(x: i32, y: i32, tile_type: &str, ownership: Ownership) -> TileState {
    TileState { pos: TilePos::new(x, y), tile_type: tile_type.to_string(), ownership, room_id: None }
}

fn room(id: usize, room_type: &str, active: bool) -> Room {
    let mut r = Room::new(id, room_type.to_string(), TileSet::new(), Vec::new());
    r.active = active;
    r
}

fn strings(v: &[&str]) -> Vec<String> {
    v.iter().map(|s| s.to_string()).collect()
}

fn requirements(required: &[&str], max_instances: u32, forbidden: &[&str]) -> RequirementsData {
    RequirementsData {
        global_rooms_required: strings(required),
        max_instances,
        forbidden_if: strings(forbidden),
    }
}

fn build(min_tiles: u32, max_tiles: u32) -> BuildData {
    BuildData {
        cost_per_tile: 0,
        mana_cost: 0,
        min_tiles,
        max_tiles,
        dig_required: false,
        requires_claimed: true,
        can_overlap: false,
        allowed_terrain: Vec::new(),
    }
}

#[test]
fn test_is_contiguous() {
    // Test a contiguous 2x2 square
    let mut tiles = TileSet::new();
    tiles.insert(TilePos::new(0, 0));
    tiles.insert(TilePos::new(1, 0));
    tiles.insert(TilePos::new(0, 1));
    tiles.insert(TilePos::new(1, 1));
    assert!(is_contiguous(&tiles));

    // Test a non-contiguous set
    let mut tiles = TileSet::new();
    tiles.insert(TilePos::new(0, 0));
    tiles.insert(TilePos::new(5, 5));
    assert!(!is_contiguous(&tiles));
}

#[test]
fn test_room_center() {
    let mut tiles = TileSet::new();
    tiles.insert(TilePos::new(0, 0));
    tiles.insert(TilePos::new(2, 0));
    tiles.insert(TilePos::new(1, 1));

    let room = Room::new(0, "test".to_string(), tiles, Vec::new());
    let center = room.get_center();

    // Average: x = (0+2+1)/3 = 1, y = (0+0+1)/3 = 0
    assert_eq!(center.x, 1);
    assert_eq!(center.y, 0);
}

#[test]
fn room_center_rounds_toward_zero_and_empty_rooms_sit_at_the_origin() {
    let room = Room::new(1, "lair".to_string(), tile_set(&[(-1, 0), (-2, 3)]), Vec::new());
    assert_eq!(room.get_center(), TilePos::new(-1, 1));
    let empty = Room::new(2, "lair".to_string(), TileSet::new(), Vec::new());
    assert_eq!(empty.get_center(), TilePos::new(0, 0));
    assert!(!empty.active);
    assert_eq!(empty.id, 2);
}

#[test]
fn empty_and_single_tile_sets() {
    assert!(!is_contiguous(&TileSet::new()));
    assert!(is_contiguous(&tile_set(&[(3, -4)])));
    assert!(!is_contiguous(&tile_set(&[(0, 0), (1, 1)])));
    assert!(is_contiguous(&tile_set(&[(0, 0), (1, 0), (1, 1), (1, 2), (0, 2)])));
}

#[test]
fn a_tile_set_holds_each_position_once() {
    let mut tiles = TileSet::new();
    assert!(tiles.insert(TilePos::new(1, 2)));
    assert!(!tiles.insert(TilePos::new(1, 2)));
    assert_eq!(tiles.len(), 1);
    assert!(tiles.contains(&TilePos::new(1, 2)));
    assert!(!tiles.contains(&TilePos::new(2, 1)));
}

#[test]
fn neighbours_come_right_left_down_up() {
    assert_eq!(
        neighbours(TilePos::new(3, 4)),
        vec![TilePos::new(4, 4), TilePos::new(2, 4), TilePos::new(3, 5), TilePos::new(3, 3)]
    );
}

#[test]
fn unit_work_slots_are_every_tile_in_row_major_order() {
    let tiles = tile_set(&[(1, 1), (0, 1), (1, 0), (0, 0)]);
    assert_eq!(
        calculate_work_slots(&tiles, [1, 1]),
        vec![TilePos::new(0, 0), TilePos::new(1, 0), TilePos::new(0, 1), TilePos::new(1, 1)]
    );
}

#[test]
fn larger_work_stations_pack_greedily_from_the_top_left() {
    let mut positions = Vec::new();
    for y in 0..2 {
        for x in 0..4 {
            positions.push((x, y));
        }
    }
    let tiles = tile_set(&positions);
    assert_eq!(calculate_work_slots(&tiles, [2, 2]), vec![TilePos::new(0, 0), TilePos::new(2, 0)]);

    let mut square = Vec::new();
    for y in 0..3 {
        for x in 0..3 {
            square.push((x, y));
        }
    }
    assert_eq!(calculate_work_slots(&tile_set(&square), [3, 3]), vec![TilePos::new(1, 1)]);
    assert_eq!(calculate_work_slots(&tile_set(&[(0, 0), (1, 0), (2, 0)]), [2, 2]), Vec::new());
    assert_eq!(
        calculate_work_slots(&tile_set(&[(0, 0), (1, 0), (2, 0), (3, 0), (4, 0)]), [2, 1]),
        vec![TilePos::new(0, 0), TilePos::new(2, 0)]
    );
}

fn sample_grid() -> Vec<Vec<TileState>> {
    vec![
        vec![
            tile(0, 0, "lair", Ownership::Player),
            tile(1, 0, "lair", Ownership::Player),
            tile(2, 0, "earth", Ownership::Unclaimed),
        ],
        vec![
            tile(0, 1, "earth", Ownership::Unclaimed),
            tile(1, 1, "lair", Ownership::Enemy),
            tile(2, 1, "lair", Ownership::Player),
        ],
        vec![
            tile(0, 2, "lair", Ownership::Player),
            tile(1, 2, "lair", Ownership::Player),
            tile(2, 2, "lair", Ownership::Player),
        ],
    ]
}

#[test]
fn rooms_are_the_connected_player_regions_of_one_type() {
    let grid = sample_grid();
    let rooms = detect_rooms(&grid, "lair");
    assert_eq!(rooms.len(), 2);
    assert_eq!(rooms[0].len(), 2);
    assert!(rooms[0].contains(&TilePos::new(0, 0)));
    assert!(rooms[0].contains(&TilePos::new(1, 0)));
    assert_eq!(rooms[1].len(), 4);
    for p in [(2, 1), (0, 2), (1, 2), (2, 2)] {
        assert!(rooms[1].contains(&TilePos::new(p.0, p.1)));
    }
    assert!(!rooms[1].contains(&TilePos::new(1, 1)));
    assert!(detect_rooms(&grid, "hatchery").is_empty());
}

#[test]
fn tiles_are_found_by_row_then_column() {
    let grid = sample_grid();
    assert_eq!(get_tile(&grid, TilePos::new(2, 1)).unwrap().tile_type, "lair");
    assert_eq!(get_tile(&grid, TilePos::new(1, 1)).unwrap().ownership, Ownership::Enemy);
    assert!(get_tile(&grid, TilePos::new(3, 0)).is_none());
    assert!(get_tile(&grid, TilePos::new(0, 3)).is_none());
    assert!(get_tile(&grid, TilePos::new(-1, 0)).is_none());
}

#[test]
fn a_missing_prerequisite_is_refused_first() {
    let req = requirements(&["hatchery", "library"], 1, &["temple"]);
    let rooms = vec![room(0, "hatchery", true), room(1, "temple", true)];
    assert_eq!(
        dungeon_permits_room("lair", &req, &rooms),
        Err(PlacementRefusal::MissingPrerequisite("library".to_string()))
    );
    let inactive = vec![room(0, "hatchery", false), room(1, "library", true)];
    assert_eq!(
        dungeon_permits_room("lair", &req, &inactive),
        Err(PlacementRefusal::MissingPrerequisite("hatchery".to_string()))
    );
}

#[test]
fn a_forbidding_room_refuses_placement() {
    let req = requirements(&["hatchery"], 0, &["prison", "temple"]);
    let rooms = vec![room(0, "hatchery", true), room(1, "temple", true)];
    assert_eq!(
        dungeon_permits_room("lair", &req, &rooms),
        Err(PlacementRefusal::ForbiddenBy("temple".to_string()))
    );
    let inactive_temple = vec![room(0, "hatchery", true), room(1, "temple", false)];
    assert_eq!(dungeon_permits_room("lair", &req, &inactive_temple), Ok(()));
}

#[test]
fn the_instance_limit_counts_active_rooms_of_the_same_data() {
    let req = requirements(&[], 2, &[]);
    let one = vec![room(0, "lair", true), room(1, "lair", false), room(2, "hatchery", true)];
    assert_eq!(dungeon_permits_room("lair", &req, &one), Ok(()));
    let two = vec![room(0, "lair", true), room(1, "lair", true)];
    assert_eq!(dungeon_permits_room("lair", &req, &two), Err(PlacementRefusal::AlreadyAtLimit(2)));
    let unlimited = requirements(&[], 0, &[]);
    assert_eq!(dungeon_permits_room("lair", &unlimited, &two), Ok(()));
}

#[test]
fn the_training_room_counts_as_its_training_hall_data() {
    let req = requirements(&["training_hall"], 1, &[]);
    let rooms = vec![room(0, "training_room", true)];
    assert_eq!(dungeon_permits_room("lair", &req, &rooms), Ok(()));
    assert_eq!(
        dungeon_permits_room("training_hall", &req, &rooms),
        Err(PlacementRefusal::AlreadyAtLimit(1))
    );
}

#[test]
fn refusals_read_as_sentences() {
    let mut names = StringHashMap::new();
    names.insert("hatchery".to_string(), "Hatchery".to_string());
    assert_eq!(
        PlacementRefusal::MissingPrerequisite("hatchery".to_string()).message(&names),
        "Requires a Hatchery first."
    );
    assert_eq!(
        PlacementRefusal::ForbiddenBy("temple".to_string()).message(&names),
        "Cannot coexist with a temple."
    );
    assert_eq!(
        PlacementRefusal::AlreadyAtLimit(3).message(&names),
        "Already have the maximum of 3."
    );
}

#[test]
fn room_shapes_are_checked_for_size_then_contiguity() {
    let limits = build(2, 4);
    assert_eq!(
        validate_room_shape(&tile_set(&[(0, 0)]), &limits),
        Err("Room too small: 1 tiles (minimum: 2)".to_string())
    );
    assert_eq!(
        validate_room_shape(&tile_set(&[(0, 0), (1, 0), (2, 0), (3, 0), (4, 0)]), &limits),
        Err("Room too large: 5 tiles (maximum: 4)".to_string())
    );
    assert_eq!(
        validate_room_shape(&tile_set(&[(0, 0), (2, 0)]), &limits),
        Err("Room tiles must be contiguous".to_string())
    );
    assert_eq!(validate_room_shape(&tile_set(&[(0, 0), (0, 1), (1, 1)]), &limits), Ok(()));
    assert_eq!(
        validate_room_shape(&TileSet::new(), &build(0, 10)),
        Err("Room tiles must be contiguous".to_string())
    );
}

#[test]
fn no_room_is_left_for_another_station() {
    // An L shape: the greedy scan takes the top-left 2x2 square, and what is
    // left holds no further 2x2 square.
    let tiles = tile_set(&[(0, 0), (1, 0), (2, 0), (0, 1), (1, 1), (2, 1), (0, 2), (1, 2)]);
    assert_eq!(calculate_work_slots(&tiles, [2, 2]), vec![TilePos::new(0, 0)]);
    let wide = tile_set(&[(0, 0), (1, 0), (2, 0), (0, 1), (1, 1), (2, 1)]);
    let slots = calculate_work_slots(&wide, [1, 2]);
    assert_eq!(slots, vec![TilePos::new(0, 0), TilePos::new(1, 0), TilePos::new(2, 0)]);
}

#[test]
fn rooms_come_in_the_order_the_scan_reaches_them() {
    let grid = vec![
        vec![tile(0, 0, "earth", Ownership::Unclaimed), tile(1, 0, "lair", Ownership::Player)],
        vec![tile(0, 1, "lair", Ownership::Player), tile(1, 1, "earth", Ownership::Unclaimed)],
    ];
    let rooms = detect_rooms(&grid, "lair");
    assert_eq!(rooms.len(), 2);
    assert!(rooms[0].contains(&TilePos::new(1, 0)));
    assert!(rooms[1].contains(&TilePos::new(0, 1)));
}

#[test]
fn a_shape_too_small_is_refused_wherever_it_lies() {
    assert_eq!(
        validate_room_shape(&tile_set(&[(i32::MAX, 0)]), &build(2, 4)),
        Err("Room too small: 1 tiles (minimum: 2)".to_string())
    );
}

#[test]
fn a_tile_must_suit_the_room_built_on_it() {
    let mut limits = build(1, 10);
    let claimed = tile(0, 0, "floor", Ownership::Player);
    assert!(tile_permits_room(&limits, &claimed, true, true));
    assert!(!tile_permits_room(&limits, &claimed, true, false));
    assert!(!tile_permits_room(&limits, &tile(0, 0, "floor", Ownership::Unclaimed), true, true));
    let mut in_room = tile(0, 0, "floor", Ownership::Player);
    in_room.room_id = Some(3);
    assert!(!tile_permits_room(&limits, &in_room, true, true));
    limits.can_overlap = true;
    assert!(tile_permits_room(&limits, &in_room, true, true));
    limits.allowed_terrain = vec!["lava".to_string()];
    assert!(!tile_permits_room(&limits, &claimed, true, true));
    assert!(tile_permits_room(&limits, &tile(0, 0, "lava", Ownership::Player), true, true));
    limits.allowed_terrain = Vec::new();
    limits.dig_required = true;
    assert!(!tile_permits_room(&limits, &claimed, false, true));
    limits.requires_claimed = false;
    assert!(tile_permits_room(&limits, &tile(0, 0, "floor", Ownership::Enemy), true, true));
}
