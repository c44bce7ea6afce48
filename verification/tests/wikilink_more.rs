use chronacle::wikilink::{wikilink_scope, WikilinkScope};
use chronacle::wikilink::{
    delete_mentioned_sql, extract_wikilinks, higher_tier_edge_sql, is_entity_table, notes_mention,
    relate_mentioned_sql, resolve_wikilinks, split_record_id, validate_record_id, NamedRecord, WikilinkError,
};

fn rec(id: &str, name: &str) -> NamedRecord {
    NamedRecord { record_id: id.to_string(), name: name.to_string() }
}

#[test]
fn extract_wikilinks_trims_and_skips_blank_or_broken_links() {
    let got = extract_wikilinks("See [[ Torvin ]] and [[]] and [[a[b]] and [[  ]] [[Mira]]");
    assert_eq!(got, vec!["Torvin".to_string(), "Mira".to_string()]);
    assert!(extract_wikilinks("").is_empty());
    assert_eq!(extract_wikilinks("[[[x]]]"), vec!["x".to_string()]);
}

#[test]
fn resolve_wikilinks_ignores_case_sorts_and_dedups() {
    let names = vec!["torvin".to_string(), "MIRA".to_string(), "ghost".to_string(), "Torvin".to_string()];
    let entities = vec![rec("npc:t1", "Torvin"), rec("npc:m1", "Mira"), rec("npc:t2", "TORVIN")];
    assert_eq!(resolve_wikilinks(&names, &entities), vec!["npc:m1".to_string(), "npc:t1".to_string()]);
    assert!(resolve_wikilinks(&[], &entities).is_empty());
}

#[test]
fn notes_mention_compares_trimmed_and_lowercased() {
    assert!(notes_mention("Met [[ torvin ]] today", " Torvin "));
    assert!(!notes_mention("Met [[Other]] today", "Torvin"));
    assert!(!notes_mention("no links", "Torvin"));
}

#[test]
fn validate_record_id_checks_both_parts() {
    assert!(validate_record_id("npc:abc").is_ok());
    assert!(matches!(validate_record_id("npc:a-b"), Err(WikilinkError::InvalidIdentifier { .. })));
    assert!(matches!(validate_record_id("npcabc"), Err(WikilinkError::MalformedRecordId { .. })));
    assert!(matches!(validate_record_id(":abc"), Err(WikilinkError::InvalidIdentifier { .. })));
}

#[test]
fn entity_tables_are_recognised() {
    assert!(is_entity_table("player_character"));
    assert!(!is_entity_table("session"));
}

#[test]
fn mentioned_edge_statements_exact() {
    assert_eq!(
        delete_mentioned_sql("npc", "a", "faction", "b"),
        "DELETE relates_to WHERE in = npc:a AND out = faction:b AND rel_type = 'mentioned'"
    );
    assert_eq!(
        relate_mentioned_sql("npc", "a", "faction", "b"),
        "RELATE npc:a->relates_to->faction:b SET rel_type = 'mentioned', notes = NULL, created_at = time::now()"
    );
    assert_eq!(
        higher_tier_edge_sql("npc", "a", "faction", "b"),
        "SELECT VALUE id FROM relates_to WHERE ((in = npc:a AND out = faction:b) OR (in = faction:b AND out = npc:a)) \
         AND rel_type != 'mentioned' LIMIT 1"
    );
}

#[test]
fn split_record_id_splits_at_first_colon_and_joins_back() {
    let id = "npc:abc:12";
    let (table, rest) = split_record_id(id).unwrap();
    assert_eq!(table, "npc");
    assert_eq!(rest, "abc:12");
    assert_eq!(format!("{table}:{rest}"), id);
    assert!(!table.contains(':'));
}

#[test]
fn wikilink_scope_prefers_the_campaign() {
    assert!(matches!(wikilink_scope(Some("c1"), Some("k1")), Some(WikilinkScope::Campaign { campaign_id: "c1" })));
    assert!(matches!(wikilink_scope(None, Some("k1")), Some(WikilinkScope::Collection { collection_id: "k1" })));
    assert!(wikilink_scope(None, None).is_none());
}

#[test]
fn mentions_match_ascii_names_without_regard_to_case() {
    assert!(notes_mention("Met [[ TORVIN the Bold ]] today", "torvin THE bold"));
    assert!(!notes_mention("Met [[Torvin]]", "Torvi"));
}
