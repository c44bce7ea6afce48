use chronacle::entity::{embed_text, order_events_for_timeline, EntityError, EntityKind, GraphNode};

fn event(name: &str, seq: Option<i64>) -> GraphNode {
    GraphNode {
        id: name.to_string(),
        kind: "event".to_string(),
        campaign_id: None,
        collection_id: None,
        name: name.to_string(),
        summary: None,
        notes: None,
        created_at: None,
        updated_at: None,
        date_start: None,
        date_end: None,
        is_ongoing: None,
        sequence_index: seq,
        era: None,
        duration_label: None,
        session_id: None,
        player_name: None,
        character_class: None,
        character_level: None,
        status: None,
    }
}

#[test]
fn entity_kind_table_names_are_correct() {
    assert_eq!(EntityKind::Npc.table_name(), "npc");
    assert_eq!(EntityKind::Location.table_name(), "location");
    assert_eq!(EntityKind::Faction.table_name(), "faction");
    assert_eq!(EntityKind::Creature.table_name(), "creature");
    assert_eq!(EntityKind::Item.table_name(), "item");
    assert_eq!(EntityKind::Event.table_name(), "event");
    assert_eq!(EntityKind::PlayerCharacter.table_name(), "player_character");
    assert_eq!(EntityKind::Misc.table_name(), "misc");
}

#[test]
fn entity_kind_from_table_roundtrips_all_variants() {
    let variants = [
        EntityKind::Npc,
        EntityKind::Location,
        EntityKind::Faction,
        EntityKind::Creature,
        EntityKind::Item,
        EntityKind::Event,
        EntityKind::PlayerCharacter,
        EntityKind::Misc,
    ];
    for kind in &variants {
        assert_eq!(
            EntityKind::from_table(kind.table_name()).unwrap(),
            *kind,
            "roundtrip failed for {:?}",
            kind
        );
    }
}

#[test]
fn entity_kind_from_table_unknown_returns_invalid_kind() {
    let err = EntityKind::from_table("goblin").unwrap_err();
    assert!(matches!(err, EntityError::InvalidKind { kind } if kind == "goblin"));
}

#[test]
fn crud_order_events_for_timeline_sorts_by_sequence_then_name_nulls_last() {
    // Deliberately unsorted, with a tie at seq=2 and two unsequenced events.
    let input = vec![
        event("Unplaced B", None),
        event("Second", Some(2)),
        event("Third", Some(3)),
        event("Also Second", Some(2)),
        event("First", Some(1)),
        event("Unplaced A", None),
    ];
    let ordered: Vec<String> = order_events_for_timeline(input)
        .into_iter()
        .map(|e| e.name)
        .collect();
    assert_eq!(
        ordered,
        vec![
            "First",       // seq 1
            "Also Second", // seq 2, name tiebreak before "Second"
            "Second",      // seq 2
            "Third",       // seq 3
            "Unplaced A",  // NULL seq, name order
            "Unplaced B",
        ]
    );
}

#[test]
fn crud_tests_order_events_for_timeline_sorts_by_sequence_then_name_nulls_last() {
    let input = vec![
        event("Unplaced B", None),
        event("Second", Some(2)),
        event("Third", Some(3)),
        event("Also Second", Some(2)),
        event("First", Some(1)),
        event("Unplaced A", None),
    ];
    let ordered: Vec<String> = order_events_for_timeline(input)
        .into_iter()
        .map(|e| e.name)
        .collect();
    assert_eq!(
        ordered,
        vec!["First", "Also Second", "Second", "Third", "Unplaced A", "Unplaced B"]
    );
}

#[test]
fn crud_embed_text_includes_name_summary_and_notes() {
    let text = embed_text(
        "Seraphina",
        Some("the archivist"),
        Some("Guards the Sunstone."),
    );
    assert!(text.contains("Seraphina"), "name missing: {text}");
    assert!(text.contains("the archivist"), "summary missing: {text}");
    assert!(
        text.contains("Guards the Sunstone."),
        "notes missing: {text}"
    );
}

#[test]
fn crud_tests_embed_text_includes_name_summary_and_notes() {
    let text = embed_text("Seraphina", Some("the archivist"), Some("Guards the Sunstone."));
    assert!(text.contains("Seraphina"), "name missing: {text}");
    assert!(text.contains("the archivist"), "summary missing: {text}");
    assert!(text.contains("Guards the Sunstone."), "notes missing: {text}");
}

#[test]
fn crud_embed_text_skips_empty_parts() {
    assert_eq!(embed_text("Bob", None, None), "Bob");
    assert_eq!(embed_text("Bob", Some("  "), Some("")), "Bob");
}

#[test]
fn crud_tests_embed_text_skips_empty_parts() {
    assert_eq!(embed_text("Bob", None, None), "Bob");
    assert_eq!(embed_text("Bob", Some("  "), Some("")), "Bob");
}
