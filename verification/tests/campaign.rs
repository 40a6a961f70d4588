use dungeon_manager::campaign::{
    CampaignDefinition, CampaignMission, CampaignProgress, CampaignUnlocks, MissionStatus,
};

fn strings(v: &[&str]) -> Vec<String> {
    v.iter().map(|s| s.to_string()).collect()
}

fn mission(id: &str, unlocks_after: &[&str], required_completed: &[&str]) -> CampaignMission {
    CampaignMission {
        id: id.to_string(),
        scenario_id: format!("{id}_map"),
        name: id.to_uppercase(),
        briefing: format!("Briefing for {id}"),
        unlocks_after: strings(unlocks_after),
        required_completed: strings(required_completed),
    }
}

fn unlocks() -> CampaignUnlocks {
    CampaignUnlocks {
        rooms: strings(&["workshop"]),
        spells: strings(&["lightning_strike"]),
        traps: strings(&["spike_trap"]),
        creatures: strings(&["orc"]),
    }
}

/// m1 unlocks m2 and m3; m3 also needs m2 completed.
fn campaign(starting_mission: &str) -> CampaignDefinition {
    CampaignDefinition {
        id: "test_campaign".to_string(),
        name: "Test Campaign".to_string(),
        description: String::new(),
        starting_mission: starting_mission.to_string(),
        missions: vec![mission("m1", &["m2", "m3"], &[]), mission("m2", &[], &[]), mission("m3", &[], &["m2"])],
        persistent_unlocks: unlocks(),
    }
}

#[test]
fn a_new_campaign_starts_on_its_first_mission() {
    let c = campaign("");
    let progress = CampaignProgress::new(&c);
    assert_eq!(progress.campaign_id, "test_campaign");
    assert_eq!(progress.active_mission, "m1");
    assert!(progress.unlocked_missions.contains("m1"));
    assert_eq!(progress.unlocked_missions.len(), 1);
    assert_eq!(progress.completed_missions.len(), 0);
    assert_eq!(progress.persistent_unlocks.rooms, vec!["workshop"]);
    assert_eq!(progress.persistent_unlocks.creatures, vec!["orc"]);
    assert_eq!(progress.active_mission(&c).unwrap().id, "m1");
}

#[test]
fn an_authored_starting_mission_takes_precedence() {
    let c = campaign("m2");
    let progress = CampaignProgress::new(&c);
    assert_eq!(progress.active_mission, "m2");
    assert!(progress.unlocked_missions.contains("m2"));
    assert!(!progress.unlocked_missions.contains("m1"));
}

#[test]
fn a_campaign_without_missions_has_no_active_mission() {
    let mut c = campaign("");
    c.missions.clear();
    let progress = CampaignProgress::new(&c);
    assert_eq!(progress.active_mission, "");
    assert_eq!(progress.unlocked_missions.len(), 0);
    assert!(progress.active_mission(&c).is_none());
}

#[test]
fn completing_a_mission_unlocks_and_advances() {
    let c = campaign("");
    let mut progress = CampaignProgress::new(&c);
    progress.complete_mission(&c, "m1");
    assert!(progress.completed_missions.contains("m1"));
    assert!(progress.unlocked_missions.contains("m2"));
    assert!(progress.unlocked_missions.contains("m3"));
    // m3 still waits for m2, so m2 is next.
    assert_eq!(progress.active_mission, "m2");
    let statuses: Vec<MissionStatus> = progress.mission_menu(&c).iter().map(|e| e.status).collect();
    assert_eq!(statuses, vec![MissionStatus::Completed, MissionStatus::Available, MissionStatus::Locked]);

    progress.complete_mission(&c, "m2");
    assert_eq!(progress.active_mission, "m3");
    assert_eq!(progress.mission_status(&c.missions[2]), MissionStatus::Available);

    progress.complete_mission(&c, "m3");
    // Nothing is left to play: the active mission stays where it was.
    assert_eq!(progress.active_mission, "m3");
    assert_eq!(progress.completed_missions.len(), 3);
}

#[test]
fn completing_an_unknown_mission_only_records_it() {
    let c = campaign("");
    let mut progress = CampaignProgress::new(&c);
    progress.complete_mission(&c, "side_quest");
    assert!(progress.completed_missions.contains("side_quest"));
    assert_eq!(progress.unlocked_missions.len(), 1);
    assert_eq!(progress.active_mission, "m1");
}

#[test]
fn unlocked_missions_come_in_authored_order() {
    let c = campaign("");
    let mut progress = CampaignProgress::new(&c);
    assert_eq!(progress.unlocked_missions(&c).len(), 1);
    progress.complete_mission(&c, "m1");
    let ids: Vec<&str> = progress.unlocked_missions(&c).iter().map(|m| m.id.as_str()).collect();
    assert_eq!(ids, vec!["m1", "m2", "m3"]);
}

#[test]
fn the_mission_menu_lists_every_mission_with_its_details() {
    let c = campaign("");
    let progress = CampaignProgress::new(&c);
    let menu = progress.mission_menu(&c);
    assert_eq!(menu.len(), 3);
    assert_eq!(menu[0].id, "m1");
    assert_eq!(menu[0].name, "M1");
    assert_eq!(menu[0].scenario_id, "m1_map");
    assert_eq!(menu[0].briefing, "Briefing for m1");
    assert_eq!(menu[0].status, MissionStatus::Available);
    assert_eq!(menu[1].status, MissionStatus::Locked);
    assert_eq!(menu[2].status, MissionStatus::Locked);
}

#[test]
fn only_playable_missions_can_be_selected() {
    let c = campaign("");
    let mut progress = CampaignProgress::new(&c);
    assert!(!progress.select_mission(&c, "m2"));
    assert!(!progress.select_mission(&c, "nowhere"));
    assert_eq!(progress.active_mission, "m1");
    progress.complete_mission(&c, "m1");
    assert_eq!(progress.active_mission, "m2");
    // A completed mission can be replayed.
    assert!(progress.select_mission(&c, "m1"));
    assert_eq!(progress.active_mission, "m1");
    // m3 is unlocked but its prerequisite is not met.
    assert!(!progress.select_mission(&c, "m3"));
    assert_eq!(progress.active_mission, "m1");
}

#[test]
fn campaign_unlocks_duplicate_field_by_field() {
    let u = unlocks();
    let d = u.duplicate();
    assert_eq!(d.rooms, u.rooms);
    assert_eq!(d.spells, u.spells);
    assert_eq!(d.traps, u.traps);
    assert_eq!(d.creatures, u.creatures);
}
