use chronacle::agent::citation::{assistant_message_sql, citations_surql, parse_citations, Citation};
use chronacle::agent::context::{
    collection_filter, collection_scan_sql, format_entity_context, BasicRow, CampaignRows, CollectionEntity, EventRow,
    PcRow, SessionRow,
};
use chronacle::agent::prompt::{any_gm_only, build_context, build_system_prompt, notes_excerpt, SearchResult, PROMPT_FALLBACK};

fn result(source_id: &str, source_name: &str, start: i64, end: i64, gm: bool) -> SearchResult {
    SearchResult {
        chunk_id: "c".to_string(),
        source_id: source_id.to_string(),
        source_name: source_name.to_string(),
        text: "Body.".to_string(),
        page_start: start,
        page_end: end,
        section_heading: "Head".to_string(),
        source_type: "rules".to_string(),
        is_gm_only: gm,
    }
}

fn empty_rows() -> CampaignRows {
    CampaignRows {
        pcs: vec![],
        npcs: vec![],
        locations: vec![],
        factions: vec![],
        creatures: vec![],
        items: vec![],
        events: vec![],
        misc: vec![],
        sessions: vec![],
    }
}

#[test]
fn build_context_exact_text_for_two_passages() {
    let ctx = build_context(&[result("source:a", "PHB.pdf", 72, 73, false), result("source:b", "", -5, 3, false)]);
    assert_eq!(
        ctx,
        "Relevant source material:\n\n[0] Source: \"PHB.pdf\", p. 72-73 \u{2014} \"Head\"\nBody.\n\n\
         [1] Source: \"source:b\", p. -5-3 \u{2014} \"Head\"\nBody.\n\n"
    );
}

#[test]
fn any_gm_only_reports_a_single_secret_passage() {
    assert!(!any_gm_only(&[]));
    assert!(!any_gm_only(&[result("a", "A", 1, 1, false)]));
    assert!(any_gm_only(&[result("a", "A", 1, 1, false), result("b", "B", 2, 2, true)]));
}

#[test]
fn system_prompt_fallback_is_the_whole_prompt() {
    assert_eq!(build_system_prompt("", ""), PROMPT_FALLBACK);
    assert!(PROMPT_FALLBACK.starts_with("You are an expert Game Master assistant. Answer the user's question"));
}

#[test]
fn system_prompt_sections_in_order() {
    let p = build_system_prompt("RAG", "NOTES");
    let a = p.find("REFERENCE MATERIAL:\nRAG\n").unwrap();
    let b = p.find("CAMPAIGN NOTES (GM's own records):\nNOTES\n").unwrap();
    let c = p.find("INSTRUCTIONS:\n").unwrap();
    assert!(a < b && b < c);
    assert!(p.starts_with("You are an expert Game Master assistant.\n\n"));
}

#[test]
fn notes_excerpt_keeps_exactly_the_budget() {
    let fits = "y".repeat(280);
    assert_eq!(notes_excerpt(Some(&fits)), Some(fits.clone()));
    let over = "y".repeat(281);
    let out = notes_excerpt(Some(&over)).unwrap();
    assert_eq!(out, format!("{}\u{2026}", "y".repeat(280)));
}

#[test]
fn citation_fallback_excerpt_starts_at_the_marker_end() {
    // non-ASCII text before the marker does not shift the excerpt
    let c = parse_citations("\u{e9} [Source: \"X\"]tail");
    assert_eq!(c.len(), 1);
    assert_eq!(c[0].source_name, "X");
    assert_eq!(c[0].page, None);
    assert_eq!(c[0].text_excerpt, "tail");
}

#[test]
fn citation_fallback_excerpt_takes_eighty_characters_trimmed() {
    let tail = format!("  {}", "z".repeat(100));
    let c = parse_citations(&format!("[Source: \"A\", p.1]{tail}"));
    assert_eq!(c.len(), 1);
    assert_eq!(c[0].text_excerpt, "z".repeat(78));
}

#[test]
fn citation_with_non_ascii_digits_has_no_page() {
    let c = parse_citations("[Source: \"A\", p.\u{667}\u{662}]");
    assert_eq!(c.len(), 1);
    assert_eq!(c[0].page, None);
}

#[test]
fn citation_page_too_large_for_i64_has_no_page() {
    let c = parse_citations("[Source: \"A\", p.99999999999999999999]");
    assert_eq!(c.len(), 1);
    assert_eq!(c[0].page, None);
    let d = parse_citations("[Source: \"A\", p.9223372036854775807]");
    assert_eq!(d[0].page, Some(i64::MAX));
}

#[test]
fn citation_quote_may_hold_a_bracket() {
    let c = parse_citations("[Source: \"A\", quote: \"x]y\"]");
    assert_eq!(c.len(), 1);
    assert_eq!(c[0].text_excerpt, "x]y");
}

#[test]
fn citation_without_closing_bracket_is_ignored() {
    assert!(parse_citations("[Source: \"A\", p.3").is_empty());
    assert!(parse_citations("[Source: \"\"]").is_empty());
}

#[test]
fn citation_quote_key_tolerates_plural_only() {
    let c = parse_citations("[Source: \"A\", quotess: \"q\"] tail");
    assert_eq!(c.len(), 1);
    assert_eq!(c[0].text_excerpt, "tail");
}

#[test]
fn citations_surql_doubles_quotes_and_omits_missing_page() {
    let cs = vec![
        Citation { source_name: "O'Neil".to_string(), page: Some(3), text_excerpt: "it's".to_string() },
        Citation { source_name: "B".to_string(), page: None, text_excerpt: "q".to_string() },
    ];
    assert_eq!(
        citations_surql(&cs),
        "{ source_name: 'O''Neil', page: 3, text_excerpt: 'it''s' }, { source_name: 'B', text_excerpt: 'q' }"
    );
    assert_eq!(citations_surql(&[]), "");
}

#[test]
fn assistant_message_sql_binds_campaign_when_given() {
    assert_eq!(
        assistant_message_sql("X", true),
        "CREATE message SET role = 'assistant', content = $content, citations = [X], is_gm_only = $gm_only, \
         campaign = type::thing('campaign', $cid), created_at = time::now()"
    );
    assert_eq!(
        assistant_message_sql("", false),
        "CREATE message SET role = 'assistant', content = $content, citations = [], is_gm_only = $gm_only, \
         created_at = time::now()"
    );
}

#[test]
fn entity_context_is_empty_without_records() {
    assert_eq!(format_entity_context(&empty_rows(), &[]), "");
}

#[test]
fn entity_context_exact_layout() {
    let mut rows = empty_rows();
    rows.pcs.push(PcRow {
        name: "Naz".to_string(),
        summary: Some("A rogue".to_string()),
        notes: Some("line1\nline2".to_string()),
        player_name: Some("Ann".to_string()),
        character_class: Some("Rogue".to_string()),
        character_level: Some(3),
        status: Some("alive".to_string()),
    });
    rows.npcs.push(BasicRow { name: "Bob".to_string(), summary: Some("  ".to_string()), notes: None });
    rows.events.push(EventRow {
        name: "Siege".to_string(),
        summary: None,
        notes: None,
        date_start: Some("Year 400".to_string()),
        date_end: Some("".to_string()),
    });
    rows.events.push(EventRow {
        name: "War".to_string(),
        summary: None,
        notes: None,
        date_start: Some("1".to_string()),
        date_end: Some("2".to_string()),
    });
    rows.sessions.push(SessionRow {
        title: "Start".to_string(),
        notes: None,
        date_played: Some("2024-01-01".to_string()),
        session_number: Some(1),
    });
    rows.sessions.push(SessionRow { title: "Loose".to_string(), notes: None, date_played: None, session_number: None });
    let col = vec![CollectionEntity {
        kind: "item".to_string(),
        row: BasicRow { name: "Sword".to_string(), summary: Some("sharp".to_string()), notes: None },
    }];
    let out = format_entity_context(&rows, &col);
    let expected = "Campaign notes (your GM records):\n\
        \n[player_character] Naz \u{b7} Player: Ann \u{b7} Class: Rogue \u{b7} Level: 3 \u{b7} Status: alive \u{b7} A rogue \u{b7} Notes: line1 line2\n\
        \n[npc] Bob\n\
        \n[event] Siege \u{b7} Year 400\n[event] War \u{b7} 1 \u{2192} 2\n\
        \n[session 1] Start \u{b7} 2024-01-01\n[session] Loose\n\
        \nCollection knowledge (from subscribed rulebooks):\n[item] Sword \u{b7} sharp\n";
    assert_eq!(out, expected);
}

#[test]
fn collection_filter_escapes_quotes_and_joins() {
    let f = collection_filter(&["a'b".to_string(), "c".to_string()]);
    assert_eq!(
        f,
        "<-in_collection<-collection CONTAINS type::thing('collection', 'a\\'b') OR \
         <-in_collection<-collection CONTAINS type::thing('collection', 'c')"
    );
    assert_eq!(collection_filter(&[]), "");
    assert_eq!(collection_scan_sql("npc", "X"), "SELECT name, summary, notes FROM npc WHERE X LIMIT 50");
}
