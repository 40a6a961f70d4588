use dungeon_manager::pack_paths::{forward_slashes, pack_path_candidates};
use dungeon_manager::text::strip_prefix;

#[test]
fn a_plain_path_is_tried_as_requested_only() {
    assert_eq!(pack_path_candidates("tiles/lair.png"), vec!["tiles/lair.png"]);
}

#[test]
fn asset_and_map_prefixes_are_also_tried_without_them() {
    assert_eq!(
        pack_path_candidates("assets/maps/level_1.json"),
        vec!["assets/maps/level_1.json", "level_1.json", "maps/level_1.json"]
    );
    assert_eq!(pack_path_candidates("assets/tiles/lair.png"), vec!["assets/tiles/lair.png", "tiles/lair.png"]);
    assert_eq!(pack_path_candidates("maps/cave.json"), vec!["maps/cave.json", "cave.json"]);
    assert_eq!(pack_path_candidates(""), vec![""]);
}

#[test]
fn backslashes_become_forward_slashes() {
    assert_eq!(forward_slashes("mods\\pack\\assets/tiles\\lair.png"), "mods/pack/assets/tiles/lair.png");
    assert_eq!(forward_slashes("plain/path"), "plain/path");
    assert_eq!(forward_slashes(""), "");
}

#[test]
fn prefixes_strip_only_from_the_front() {
    assert_eq!(strip_prefix("assets/x", "assets/"), Some("x"));
    assert_eq!(strip_prefix("x/assets/", "assets/"), None);
    assert_eq!(strip_prefix("as", "assets/"), None);
    assert_eq!(strip_prefix("ünïcode", "ün"), Some("ïcode"));
    assert_eq!(strip_prefix("same", "same"), Some(""));
}
