use dungeon_manager::campaign::{CampaignDefinition, CampaignUnlocks};
use dungeon_manager::content_pack::{merge_items, Identified};
use dungeon_manager::StringHashMap;

#[derive(Debug, Clone)]
struct TestItem {
    id: String,
    value: i32,
}

impl Identified for TestItem {
    // The id as the verifier sees it; only proofs use it, so it is never run.
    fn spec_id(&self) -> vstd::seq::Seq<char> {
        unreachable!()
    }

    fn id(&self) -> &str {
        &self.id
    }
}

fn item(id: &str, value: i32) -> TestItem {
    TestItem { id: id.to_string(), value }
}

#[test]
fn merge_reports_added_and_replaced_ids() {
    let mut target = StringHashMap::new();
    target.insert(
        "room_a".to_string(),
        TestItem {
            id: "room_a".to_string(),
            value: 1,
        },
    );

    let report = merge_items(
        &mut target,
        vec![
            TestItem {
                id: "room_a".to_string(),
                value: 2,
            },
            TestItem {
                id: "room_b".to_string(),
                value: 3,
            },
        ],
    );

    assert_eq!(target.get("room_a").unwrap().value, 2);
    assert_eq!(target.get("room_b").unwrap().value, 3);
    assert_eq!(report.replaced_ids, vec!["room_a"]);
    assert_eq!(report.added_ids, vec!["room_b"]);
}

#[test]
fn the_last_item_with_an_id_wins_and_others_are_kept() {
    let mut target = StringHashMap::new();
    target.insert("keep".to_string(), item("keep", 7));
    target.insert("x".to_string(), item("x", 0));
    let report = merge_items(&mut target, vec![item("x", 1), item("y", 2), item("x", 3)]);
    assert_eq!(target.get("x").unwrap().value, 3);
    assert_eq!(target.get("y").unwrap().value, 2);
    assert_eq!(target.get("keep").unwrap().value, 7);
    assert_eq!(target.len(), 3);
    assert_eq!(report.replaced_ids, vec!["x", "x"]);
    assert_eq!(report.added_ids, vec!["y"]);
    assert_eq!(report.pack_id, "");
    assert_eq!(report.replaced_ids.len() + report.added_ids.len(), 3);
}

#[test]
fn merging_nothing_changes_nothing() {
    let mut target = StringHashMap::new();
    target.insert("a".to_string(), item("a", 1));
    let report = merge_items(&mut target, Vec::new());
    assert_eq!(target.len(), 1);
    assert_eq!(target.get("a").unwrap().value, 1);
    assert!(report.replaced_ids.is_empty());
    assert!(report.added_ids.is_empty());
}

#[test]
fn campaigns_merge_by_their_id() {
    let campaign = |id: &str, name: &str| CampaignDefinition {
        id: id.to_string(),
        name: name.to_string(),
        description: String::new(),
        starting_mission: String::new(),
        missions: Vec::new(),
        persistent_unlocks: CampaignUnlocks {
            rooms: Vec::new(),
            spells: Vec::new(),
            traps: Vec::new(),
            creatures: Vec::new(),
        },
    };
    let mut target = StringHashMap::new();
    target.insert("c".to_string(), campaign("c", "First Campaign"));
    let report = merge_items(&mut target, vec![campaign("c", "Second Campaign")]);
    assert_eq!(target.get("c").unwrap().name, "Second Campaign");
    assert_eq!(report.replaced_ids, vec!["c"]);
}

use dungeon_manager::content_pack::{merge_into_report, ContentPackReport};

#[test]
fn file_reports_accumulate_into_the_pack_report() {
    let mut target = StringHashMap::new();
    target.insert("a".to_string(), item("a", 1));
    let mut report = ContentPackReport {
        pack_id: "pack".to_string(),
        replaced_ids: vec!["earlier".to_string()],
        added_ids: Vec::new(),
    };
    merge_into_report(&mut target, vec![item("a", 2), item("b", 3)], &mut report);
    merge_into_report(&mut target, vec![item("b", 4), item("c", 5)], &mut report);
    assert_eq!(report.pack_id, "pack");
    assert_eq!(report.replaced_ids, vec!["earlier", "a", "b"]);
    assert_eq!(report.added_ids, vec!["b", "c"]);
    assert_eq!(target.get("b").unwrap().value, 4);
    assert_eq!(target.len(), 3);
}
