use chronacle::entity::{make_npc, EntityError, EntityInput};
use chronacle::records::{
    delete_refusal, strip_uuid_hyphens, new_record_id, session_embed_text, setting_upsert_sql, validate_entity_input, validate_session_input, Session,
    SessionChange, SessionError, SessionInput,
};

fn input(number: i64, title: &str) -> SessionInput {
    SessionInput { session_number: number, title: title.to_string(), date_played: String::new(), notes: String::new(), is_gm_only: None }
}

#[test]
fn record_ids_are_thirty_two_hex_digits() {
    let a = new_record_id();
    let b = new_record_id();
    assert_eq!(a.len(), 32);
    assert!(a.chars().all(|c| c.is_ascii_hexdigit() && !c.is_ascii_uppercase()));
    assert_ne!(a, b);
}

#[test]
fn session_validation_order_and_messages() {
    match validate_session_input(&input(1, "  "), SessionChange::Create) {
        Err(SessionError::Validation { field, message }) => {
            assert_eq!(field, "title");
            assert_eq!(message, "Title is required");
        },
        other => panic!("unexpected {other:?}"),
    }
    match validate_session_input(&input(0, "Heist"), SessionChange::Create) {
        Err(SessionError::Validation { field, message }) => {
            assert_eq!(field, "session_number");
            assert_eq!(message, "Session number must be greater than 0");
        },
        other => panic!("unexpected {other:?}"),
    }
    match validate_session_input(&input(-2, "Heist"), SessionChange::Update) {
        Err(SessionError::Validation { message, .. }) => assert_eq!(message, "Session number must be positive"),
        other => panic!("unexpected {other:?}"),
    }
    assert!(validate_session_input(&input(3, "Heist"), SessionChange::Update).is_ok());
}

#[test]
fn entity_validation_requires_a_name() {
    let blank = EntityInput { name: " \t".to_string(), ..Default::default() };
    assert!(matches!(validate_entity_input(&blank), Err(EntityError::Validation { .. })));
    assert!(validate_entity_input(&make_npc("Torvin")).is_ok());
    assert!(make_npc("Torvin").summary.is_none());
}

#[test]
fn setting_keys_escape_backticks() {
    assert_eq!(setting_upsert_sql("a`b"), "UPSERT setting:`a``b` SET value = $value");
    assert_eq!(setting_upsert_sql("llm_model"), "UPSERT setting:`llm_model` SET value = $value");
}

#[test]
fn session_embed_text_joins_title_and_notes() {
    let mut s = Session {
        id: "s".to_string(),
        campaign_id: None,
        session_number: 1,
        title: "  The Heist ".to_string(),
        date_played: String::new(),
        notes: "  went well ".to_string(),
        is_gm_only: false,
        created_at: None,
        updated_at: None,
    };
    assert_eq!(session_embed_text(&s), "The Heist\nwent well");
    s.notes = "   ".to_string();
    assert_eq!(session_embed_text(&s), "The Heist");
}

#[test]
fn strip_uuid_hyphens_keeps_the_digits_in_order() {
    assert_eq!(strip_uuid_hyphens("a1b2c3d4-e5f6-4a7b-8c9d-0e1f2a3b4c5d"), "a1b2c3d4e5f64a7b8c9d0e1f2a3b4c5d");
    assert_eq!(strip_uuid_hyphens("--x-"), "x");
}

#[test]
fn new_record_id_has_version_and_variant_digits() {
    for _ in 0..20 {
        let id = new_record_id();
        let cs: Vec<char> = id.chars().collect();
        assert_eq!(cs.len(), 32);
        assert_eq!(cs[12], '4');
        assert!(matches!(cs[16], '8' | '9' | 'a' | 'b'));
    }
}

#[test]
fn delete_refusal_checks_subscriptions_then_sources() {
    assert_eq!(
        delete_refusal(2, 5).as_deref(),
        Some("Cannot delete: campaigns are subscribed to this collection. Remove subscriptions first.")
    );
    assert_eq!(
        delete_refusal(0, 1).as_deref(),
        Some("Cannot delete: sources exist in this collection. Delete sources first.")
    );
    assert_eq!(delete_refusal(0, 0), None);
}

#[test]
fn trimmed_strips_both_ends() {
    assert_eq!(chronacle::text::trimmed("  Torvin \n"), "Torvin");
    assert_eq!(chronacle::text::trimmed(" \t "), "");
}
