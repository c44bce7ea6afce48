use chronacle::agent::prompt::SearchResult;
use chronacle::entity::GraphNode;
use chronacle::extraction::{
    batch_passages, batch_progress, building_progress, done_progress, empty_progress, enriching_progress,
    extracted_input, extraction_embed_text, keep_longer, may_link, resolving_progress, searching_progress,
    strip_code_fences, union_passages, BranchingLlm, ChatMessage, ExtractionPhase, MockLlm, MockVectorStore,
    PassageHit,
};

fn hit(id: &str, text: &str) -> PassageHit {
    PassageHit { chunk_id: id.to_string(), text: text.to_string() }
}

fn node(kind: &str, name: &str, summary: Option<&str>, campaign: Option<&str>) -> GraphNode {
    GraphNode {
        id: "x".to_string(),
        kind: kind.to_string(),
        campaign_id: campaign.map(|s| s.to_string()),
        collection_id: None,
        name: name.to_string(),
        summary: summary.map(|s| s.to_string()),
        notes: None,
        created_at: None,
        updated_at: None,
        date_start: None,
        date_end: None,
        is_ongoing: None,
        sequence_index: None,
        era: None,
        duration_label: None,
        session_id: None,
        player_name: None,
        character_class: None,
        character_level: None,
        status: None,
    }
}

#[test]
fn strip_code_fences_variants() {
    assert_eq!(strip_code_fences("```json\n{\"entities\":[]}\n```"), "{\"entities\":[]}");
    assert_eq!(strip_code_fences("  ```\n{}\n``````  "), "{}");
    assert_eq!(strip_code_fences("  plain  "), "plain");
}

#[test]
fn batch_passages_closes_before_the_budget() {
    let a = "a".repeat(10000);
    let b = "b".repeat(7000);
    let got = batch_passages(&[a.clone(), b.clone(), "c".to_string()]);
    assert_eq!(got, vec![format!("{a}\n"), format!("{b}\nc\n")]);
    assert!(batch_passages(&[]).is_empty());
    let huge = "h".repeat(20000);
    assert_eq!(batch_passages(&[huge.clone()]), vec![format!("{huge}\n")]);
}

#[test]
fn batch_passages_counts_bytes_not_characters() {
    // 8000 two-byte characters are 16000 bytes
    let wide = "\u{e9}".repeat(8000);
    let got = batch_passages(&[wide.clone(), "x".to_string()]);
    assert_eq!(got, vec![format!("{wide}\n"), "x\n".to_string()]);
}

#[test]
fn union_passages_dedups_by_chunk_id() {
    let semantic = vec![hit("chunk:1", "A"), hit("chunk:chunk:2", "B")];
    let lexical = vec![hit("1", "A2"), hit("3", "C"), hit("2", "B2")];
    assert_eq!(union_passages(&semantic, &lexical), vec!["A".to_string(), "B".to_string(), "C".to_string()]);
}

#[test]
fn progress_reports_exact() {
    let p = resolving_progress("Varn");
    assert_eq!(p.phase, ExtractionPhase::Resolving);
    assert_eq!(p.detail, "Resolving \"Varn\"");
    assert_eq!(searching_progress(12, 1, 2).detail, "Found 12 passages");
    assert_eq!(building_progress("Varn", 0, 0).detail, "Building \"Varn\"");
    let b = batch_progress(0, 3, 4, 5);
    assert_eq!(b.detail, "Batch 1/3");
    assert_eq!((b.entities_found, b.relations_found), (4, 5));
    assert_eq!(enriching_progress("Bob", 1, 2, 0, 0).detail, "Enriching \"Bob\" (2/2)");
    let e = empty_progress("Varn");
    assert_eq!(e.phase, ExtractionPhase::Empty);
    assert_eq!(e.detail, "No passages found for \"Varn\"");
    let d = done_progress(7, 3);
    assert_eq!(d.phase, ExtractionPhase::Done);
    assert_eq!(d.detail, "Created 7 entities, 3 relations");
}

#[test]
fn keep_longer_prefers_longer_non_blank_text() {
    assert_eq!(keep_longer(None, Some("  ".to_string())), None);
    assert_eq!(keep_longer(None, Some("a".to_string())), Some("a".to_string()));
    assert_eq!(keep_longer(Some("ab".to_string()), Some("\u{e9}".to_string())), Some("ab".to_string()));
    assert_eq!(keep_longer(Some("ab".to_string()), Some("abc".to_string())), Some("abc".to_string()));
    assert_eq!(keep_longer(Some("ab".to_string()), None), Some("ab".to_string()));
}

#[test]
fn extracted_entities_and_links() {
    let input = extracted_input(&"Varn".to_string(), &Some("s".to_string()), &None);
    assert_eq!(input.name, "Varn");
    assert_eq!(input.summary.as_deref(), Some("s"));
    assert!(input.notes.is_none() && input.status.is_none());
    assert!(may_link(&node("npc", "A", None, None)));
    assert!(!may_link(&node("npc", "A", None, Some("camp1"))));
    assert_eq!(extraction_embed_text(&node("npc", "Varn", Some("leader"), None)), "[npc] Varn: leader");
    assert_eq!(extraction_embed_text(&node("item", "Cup", None, None)), "[item] Cup: ");
}

#[test]
fn model_stand_ins() {
    let m = MockLlm { response: "{}".to_string() };
    assert_eq!(m.reply(), "{}");
    assert_eq!(m.provider_type(), "mock_extraction");
    let b = BranchingLlm { seed: "S".to_string(), profile: "P".to_string() };
    let seed_msg = vec![ChatMessage { role: "user".to_string(), content: "give \"relations\" too".to_string() }];
    let profile_msg = vec![ChatMessage { role: "user".to_string(), content: "describe".to_string() }];
    assert_eq!(b.reply(&seed_msg), "S");
    assert_eq!(b.reply(&profile_msg), "P");
    assert_eq!(b.reply(&[]), "P");
    assert_eq!(b.provider_type(), "mock_branching");
    let v = MockVectorStore {
        results: vec![SearchResult {
            chunk_id: "c".to_string(),
            source_id: "s".to_string(),
            source_name: "n".to_string(),
            text: "t".to_string(),
            page_start: 1,
            page_end: 1,
            section_heading: "h".to_string(),
            source_type: "rules".to_string(),
            is_gm_only: false,
        }],
    };
    assert_eq!(v.search_results().len(), 1);
}
