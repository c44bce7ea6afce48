use chronacle::entity::{embed_text, order_events_for_timeline, EntityKind, GraphNode};

fn event(id: &str, name: &str, seq: Option<i64>) -> GraphNode {
    GraphNode {
        id: id.to_string(),
        kind: "event".to_string(),
        campaign_id: None,
        collection_id: None,
        name: name.to_string(),
        summary: None,
        notes: None,
        created_at: None,
        updated_at: None,
        date_start: None,
        date_end: None,
        is_ongoing: None,
        sequence_index: seq,
        era: None,
        duration_label: None,
        session_id: None,
        player_name: None,
        character_class: None,
        character_level: None,
        status: None,
    }
}

#[test]
fn timeline_keeps_input_order_of_full_ties() {
    let input = vec![event("2", "Same", Some(1)), event("1", "Same", Some(1)), event("0", "Early", Some(-4))];
    let ids: Vec<String> = order_events_for_timeline(input).into_iter().map(|e| e.id).collect();
    assert_eq!(ids, vec!["0", "2", "1"]);
}

#[test]
fn timeline_orders_names_by_code_point() {
    let input = vec![event("a", "b", None), event("b", "B", None), event("c", "", None)];
    let names: Vec<String> = order_events_for_timeline(input).into_iter().map(|e| e.name).collect();
    assert_eq!(names, vec!["", "B", "b"]);
}

#[test]
fn table_names_read_back_as_their_kind() {
    for k in [
        EntityKind::Npc,
        EntityKind::Location,
        EntityKind::Faction,
        EntityKind::Creature,
        EntityKind::Item,
        EntityKind::Event,
        EntityKind::PlayerCharacter,
        EntityKind::Misc,
    ] {
        assert_eq!(EntityKind::from_table(k.table_name()).unwrap(), k);
    }
    assert!(EntityKind::from_table("NPC").is_err());
}

#[test]
fn embed_text_exact_layout() {
    assert_eq!(embed_text("  Seraphina ", Some(" the archivist "), Some(" Guards. ")), "Seraphina: the archivist\nGuards.");
    assert_eq!(embed_text("Bob", None, Some("n")), "Bob\nn");
}
