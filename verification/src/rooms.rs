//! Room data ids and the tile types rooms are placed as.

use vstd::prelude::*;
use crate::text::str_equal;

verus! {

/// How a room type is built. The authored construction time, a fractional
/// number of seconds, is not kept here.
#[derive(Debug, Clone)]
pub struct BuildData {
    pub cost_per_tile: i32,
    pub mana_cost: i32,
    pub min_tiles: u32,
    pub max_tiles: u32,
    pub dig_required: bool,
    pub requires_claimed: bool,
    pub can_overlap: bool,
    pub allowed_terrain: Vec<String>,
}

/// The dungeon-wide requirements a room type places on being built.
#[derive(Debug, Clone)]
pub struct RequirementsData {
    pub global_rooms_required: Vec<String>,
    pub max_instances: u32,
    pub forbidden_if: Vec<String>,
}

/// The `rooms.json` id a runtime `room_type` refers to: the training room's
/// data is authored as `training_hall`; every other id is the same.
pub open spec fn data_id_of(room_type: Seq<char>) -> Seq<char> {
    if room_type == "training_room"@ {
        "training_hall"@
    } else {
        room_type
    }
}

/// The runtime `room_type` a `rooms.json` id is placed on the grid as.
pub open spec fn tile_type_of(data_id: Seq<char>) -> Seq<char> {
    if data_id == "training_hall"@ {
        "training_room"@
    } else {
        data_id
    }
}

/// The `rooms.json` id a runtime `room_type` string refers to.
pub fn room_data_id(room_type: &str) -> (r: &str)
    ensures
        r@ == data_id_of(room_type@),
{
    if str_equal(room_type, "training_room") {
        "training_hall"
    } else {
        room_type
    }
}

/// The runtime `room_type` / `tile_type` a `rooms.json` id is placed on the
/// grid as. The inverse of [`room_data_id`].
pub fn room_tile_type(data_id: &str) -> (r: &str)
    ensures
        r@ == tile_type_of(data_id@),
{
    if str_equal(data_id, "training_hall") {
        "training_room"
    } else {
        data_id
    }
}

/// What building a room of `tiles` tiles costs: gold, the per-tile cost
/// times the tile count (taken as an `i32`), and mana, paid once.
pub fn room_build_cost(build: &BuildData, tiles: usize) -> (r: (i32, i32))
    requires
        i32::MIN <= build.cost_per_tile * (tiles as i32) <= i32::MAX,
    ensures
        r.0 == build.cost_per_tile * (tiles as i32),
        r.1 == build.mana_cost,
{
    let count: i32 = tiles as i32;
    (build.cost_per_tile * count, build.mana_cost)
}

/// The two id mappings undo each other: a runtime room type maps to its data
/// id and back (unless it already spells the data id `training_hall`), and
/// a data id maps to its tile type and back (unless it already spells the
/// tile type `training_room`).
pub proof fn room_ids_round_trip(room_type: Seq<char>, data_id: Seq<char>)
    ensures
        room_type != "training_hall"@ ==> tile_type_of(data_id_of(room_type)) == room_type,
        data_id != "training_room"@ ==> data_id_of(tile_type_of(data_id)) == data_id,
{
}

} // verus!
