use chronacle::entity::EntityKind;
use chronacle::wikilink::{split_record_id, validate_identifier, WikilinkError, ENTITY_TABLES};

#[test]
fn wikilink_validate_identifier_rejects_special_chars() {
    assert!(validate_identifier("npc").is_ok());
    assert!(validate_identifier("player_character").is_ok());
    assert!(validate_identifier("abc123").is_ok());

    assert!(validate_identifier("npc; DROP TABLE npc").is_err());
    assert!(validate_identifier("npc->relates_to").is_err());
    assert!(validate_identifier("foo:bar").is_err());
    assert!(validate_identifier("").is_err());
}

#[test]
fn wikilink_tests_extra_validate_identifier_rejects_special_chars() {
    assert!(validate_identifier("npc").is_ok());
    assert!(validate_identifier("player_character").is_ok());
    assert!(validate_identifier("abc123").is_ok());
    assert!(validate_identifier("npc; DROP TABLE npc").is_err());
    assert!(validate_identifier("npc->relates_to").is_err());
    assert!(validate_identifier("foo:bar").is_err());
    assert!(validate_identifier("").is_err());
}

#[test]
fn wikilink_split_record_id_error_on_missing_colon() {
    let result = split_record_id("npcabc123");
    assert!(
        matches!(result, Err(WikilinkError::MalformedRecordId { .. })),
        "expected MalformedRecordId, got {result:?}"
    );

    let ok = split_record_id("npc:abc123");
    assert!(ok.is_ok());
    let (table, id) = ok.unwrap();
    assert_eq!(table, "npc");
    assert_eq!(id, "abc123");
}

#[test]
fn wikilink_tests_extra_split_record_id_error_on_missing_colon() {
    let result = split_record_id("npcabc123");
    assert!(matches!(
        result,
        Err(WikilinkError::MalformedRecordId { .. })
    ));
    let ok = split_record_id("npc:abc123").unwrap();
    assert_eq!(ok, ("npc", "abc123"));
}

#[test]
fn wikilink_entity_tables_matches_entity_kind() {
    for t in ENTITY_TABLES {
        EntityKind::from_table(t)
            .unwrap_or_else(|_| panic!("ENTITY_TABLES entry '{t}' not in EntityKind"));
    }

    let kind_count = [
        EntityKind::Npc,
        EntityKind::Location,
        EntityKind::Faction,
        EntityKind::Creature,
        EntityKind::Item,
        EntityKind::Event,
        EntityKind::PlayerCharacter,
        EntityKind::Misc,
    ]
    .len();
    assert_eq!(
        ENTITY_TABLES.len(),
        kind_count,
        "ENTITY_TABLES length doesn't match EntityKind variant count"
    );
}

#[test]
fn wikilink_tests_extra_entity_tables_matches_entity_kind() {
    for t in ENTITY_TABLES {
        EntityKind::from_table(t)
            .unwrap_or_else(|_| panic!("ENTITY_TABLES entry '{t}' not in EntityKind"));
    }
    let kind_count = [
        EntityKind::Npc,
        EntityKind::Location,
        EntityKind::Faction,
        EntityKind::Creature,
        EntityKind::Item,
        EntityKind::Event,
        EntityKind::PlayerCharacter,
        EntityKind::Misc,
    ]
    .len();
    assert_eq!(
        ENTITY_TABLES.len(),
        kind_count,
        "ENTITY_TABLES length doesn't match EntityKind variant count"
    );
}
