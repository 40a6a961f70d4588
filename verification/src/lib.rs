//! The rules and data model of a dungeon-keeper game, with their contracts:
//! room detection and placement, campaign progress, spell casting, digging,
//! content packs, scenario and tutorial checks, and trace-log tags.

pub mod balance_data;
pub mod campaign;
pub mod combat;
pub mod content_pack;
pub mod debug_log;
pub mod digging;
pub mod game_config;
pub mod hero_buildings;
pub mod hero_parties;
pub mod pack_paths;
pub mod room_validator;
pub mod rooms;
pub mod scenario;
pub mod spell_effects;
pub mod technologies;
pub mod text;
pub mod tile_state;
pub mod tiles;
pub mod tutorial;

pub use vstd::hash_map::StringHashMap;
pub use vstd::hash_set::StringHashSet;
