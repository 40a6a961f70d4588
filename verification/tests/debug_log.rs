use dungeon_manager::debug_log::{parse_tags, tags_allow};

#[test]
fn an_unset_variable_traces_nothing() {
    let tags = parse_tags("");
    assert!(!tags_allow(&tags, "combat"));
    assert!(!tags_allow(&tags, "all"));
}

#[test]
fn named_tags_are_traced_and_others_are_not() {
    let tags = parse_tags("combat,imps");
    assert!(tags_allow(&tags, "combat"));
    assert!(tags_allow(&tags, "imps"));
    assert!(!tags_allow(&tags, "spells"));
}

#[test]
fn all_traces_everything() {
    let tags = parse_tags("all");
    assert!(tags_allow(&tags, "combat"));
    assert!(tags_allow(&tags, "anything_at_all"));
}

#[test]
fn whitespace_and_case_are_forgiven() {
    // Someone typing this at a shell prompt should not have to be careful.
    let tags = parse_tags(" Combat , IMPS ,, ");
    assert!(tags_allow(&tags, "combat"));
    assert!(tags_allow(&tags, "Imps"));
    assert!(!tags.contains(""), "empty entries should be dropped");
}

#[test]
fn parsed_tags_are_trimmed_and_lower_case() {
    let tags = parse_tags("\tAI ,Spells\n");
    assert!(tags.contains("ai"));
    assert!(tags.contains("spells"));
    assert!(!tags.contains("AI"));
    assert!(!tags.contains(" ai"));
    assert_eq!(tags.len(), 2);
}

#[test]
fn all_among_other_tags_still_traces_everything() {
    let tags = parse_tags("combat, ALL");
    assert!(tags_allow(&tags, "movement"));
}

#[test]
fn a_separator_only_value_traces_nothing() {
    let tags = parse_tags(" , ,");
    assert_eq!(tags.len(), 0);
    assert!(!tags_allow(&tags, "combat"));
}

#[test]
fn writing_the_tags_back_out_parses_to_the_same_tags() {
    let tags = parse_tags(" Combat , IMPS ,, ");
    let again = parse_tags("imps,combat,imps");
    assert_eq!(again.len(), tags.len());
    assert!(again.contains("combat") && again.contains("imps"));
    assert_eq!(parse_tags("").len(), 0);
}
