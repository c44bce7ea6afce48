use chronacle::agent::citation::parse_citations;
use chronacle::agent::prompt::{build_context, build_system_prompt, notes_excerpt, SearchResult, NOTES_EXCERPT_LEN};

#[test]
fn agent_service_test_build_context_empty() {
    let ctx = build_context(&[]);
    assert!(ctx.is_empty());
}

#[test]
fn agent_service_test_build_context_with_results() {

    let results = vec![SearchResult {
        chunk_id: "chunk-1".into(),
        source_id: "source:abc".into(),
        source_name: "PHB.pdf".into(),
        text: "A fighter can use Action Surge once per rest.".into(),
        page_start: 72,
        page_end: 72,
        section_heading: "Fighter Class Features".into(),
        source_type: "rules".into(),
        is_gm_only: false,
    }];

    let ctx = build_context(&results);
    assert!(!ctx.is_empty());
    assert!(ctx.contains("PHB.pdf"));
    assert!(ctx.contains("p. 72-72"));
    assert!(ctx.contains("Action Surge"));
}

#[test]
fn test_system_prompt_without_context() {
    let prompt = build_system_prompt("", "");
    assert!(prompt.contains("Game Master assistant"));
    assert!(!prompt.contains("REFERENCE MATERIAL"));
}

#[test]
fn test_system_prompt_with_context() {
    let ctx =
        "[0] Source: \"PHB.pdf\", p. 72 — \"Fighter Class Features\"\nAction Surge text.\n\n";
    let prompt = build_system_prompt(ctx, "");
    assert!(prompt.contains("REFERENCE MATERIAL"));
    assert!(prompt.contains("PHB.pdf"));
    assert!(prompt.contains("[Source: \"<source name>\""));
    assert!(prompt.contains("Do NOT quote the passages"));
    assert!(prompt.contains("1–3 sentences"));
    assert!(prompt.contains("synonyms"));
    assert!(prompt.contains("scanned every passage"));
    assert!(prompt.contains("quote: \""));
}

#[test]
fn test_system_prompt_guards_entity_scope_and_enumeration() {
    let prompt = build_system_prompt("[0] Source: \"x.pdf\", p. 1 — \"\"\ntext\n\n", "");
    // Entity-scope rule must be present.
    assert!(
        prompt.contains("Entity scope is critical"),
        "prompt should warn about cross-entity contamination"
    );
    // The specific failure shape we observed in production.
    assert!(
        prompt.contains("SEPARATE entities"),
        "prompt should explicitly say co-listed entities are SEPARATE"
    );
    // Enumeration questions must not be compressed to 1–3 sentences.
    assert!(
        prompt.contains("enumeration questions") || prompt.contains("list / enumeration"),
        "prompt should call out list / enumeration questions"
    );
    assert!(
        prompt.contains("Do not compress"),
        "prompt should forbid compressing lists into the 1-3 sentence budget"
    );
}

#[test]
fn agent_service_notes_excerpt_collapses_and_truncates() {
    assert_eq!(notes_excerpt(None), None);
    assert_eq!(notes_excerpt(Some("   ")), None);
    assert_eq!(
        notes_excerpt(Some("line one\n\nline  two")),
        Some("line one line two".to_string())
    );
    let long = "x ".repeat(400); // 400 single-char words
    let out = notes_excerpt(Some(&long)).unwrap();
    assert!(out.ends_with('…'), "expected ellipsis: {out}");
    assert_eq!(out.chars().count(), NOTES_EXCERPT_LEN + 1);
}

#[test]
fn build_system_prompt_both_contexts_includes_both_sections() {
    let rag = "[0] Source: \"PHB\", p.1 — \"Intro\"\nSome rules.\n\n";
    let ent = "Campaign notes (your GM records):\n\n[npc] Aldric\n";
    let prompt = build_system_prompt(rag, ent);
    assert!(prompt.contains("REFERENCE MATERIAL"), "missing RAG section");
    assert!(prompt.contains("CAMPAIGN NOTES"), "missing entity section");
    assert!(
        prompt.contains("[Entity:"),
        "missing entity citation instruction"
    );
    assert!(
        prompt.contains("[Source:"),
        "missing source citation instruction"
    );
}

#[test]
fn build_system_prompt_entity_only_omits_rag_section() {
    let ent = "Campaign notes (your GM records):\n\n[npc] Aldric\n";
    let prompt = build_system_prompt("", ent);
    assert!(prompt.contains("CAMPAIGN NOTES"), "missing entity section");
    assert!(
        !prompt.contains("REFERENCE MATERIAL"),
        "unexpected RAG section"
    );
    assert!(
        prompt.contains("[Entity:"),
        "missing entity citation instruction"
    );
    assert!(
        !prompt.contains("Entity scope is critical"),
        "unexpected RAG-only instruction"
    );
}

#[test]
fn build_system_prompt_rag_only_regression() {
    // Regression: existing behaviour must be preserved when entity_context is empty.
    let rag = "[0] Source: \"PHB\", p.1 — \"Intro\"\nSome rules.\n\n";
    let prompt = build_system_prompt(rag, "");
    assert!(prompt.contains("REFERENCE MATERIAL"), "missing RAG section");
    assert!(
        !prompt.contains("CAMPAIGN NOTES"),
        "unexpected entity section"
    );
    assert!(
        prompt.contains("Entity scope is critical"),
        "missing scope guard"
    );
    assert!(
        prompt.contains("SEPARATE entities"),
        "missing entity contamination guard"
    );
    assert!(
        prompt.contains("list / enumeration"),
        "missing enumeration instruction"
    );
    assert!(
        prompt.contains("Do not compress"),
        "missing list-compression guard"
    );
}

#[test]
fn build_system_prompt_neither_returns_fallback() {
    let prompt = build_system_prompt("", "");
    assert!(
        !prompt.contains("REFERENCE MATERIAL"),
        "unexpected RAG section"
    );
    assert!(
        !prompt.contains("CAMPAIGN NOTES"),
        "unexpected entity section"
    );
    assert!(
        prompt.contains("Game Master assistant"),
        "missing base identity"
    );
}

#[test]
fn agent_service_test_parse_citations_empty() {
    let citations = parse_citations("Hello, I don't know the answer.");
    assert!(citations.is_empty());
}

#[test]
fn citation_test_parse_citations_empty() {
    let citations = parse_citations("Hello, I don't know the answer.");
    assert!(citations.is_empty());
}

#[test]
fn agent_service_test_parse_citations_single() {
    let text = "The fighter can use Action Surge [Source: \"PHB\", p.72].";
    let citations = parse_citations(text);
    assert_eq!(citations.len(), 1);
    assert_eq!(citations[0].source_name, "PHB");
    assert_eq!(citations[0].page, Some(72));
}

#[test]
fn citation_test_parse_citations_single() {
    let text = "The fighter can use Action Surge [Source: \"PHB\", p.72].";
    let citations = parse_citations(text);
    assert_eq!(citations.len(), 1);
    assert_eq!(citations[0].source_name, "PHB");
    assert_eq!(citations[0].page, Some(72));
}

#[test]
fn agent_service_test_parse_citations_multiple() {
    let text = "Combat has multiple actions [Source: \"PHB\", p.192]. \
                 Opportunity attacks are different [Source: \"DMG\", p.25].";
    let citations = parse_citations(text);
    assert_eq!(citations.len(), 2);
    assert_eq!(citations[0].source_name, "PHB");
    assert_eq!(citations[1].source_name, "DMG");
}

#[test]
fn citation_test_parse_citations_multiple() {
    let text = "Combat has multiple actions [Source: \"PHB\", p.192]. \
                 Opportunity attacks are different [Source: \"DMG\", p.25].";
    let citations = parse_citations(text);
    assert_eq!(citations.len(), 2);
    assert_eq!(citations[0].source_name, "PHB");
    assert_eq!(citations[1].source_name, "DMG");
}

#[test]
fn agent_service_test_parse_citations_no_page() {
    let text = "See the basic rules [Source: \"SRD\"].";
    let citations = parse_citations(text);
    assert_eq!(citations.len(), 1);
    assert_eq!(citations[0].source_name, "SRD");
    assert_eq!(citations[0].page, None);
}

#[test]
fn citation_test_parse_citations_no_page() {
    let text = "See the basic rules [Source: \"SRD\"].";
    let citations = parse_citations(text);
    assert_eq!(citations.len(), 1);
    assert_eq!(citations[0].source_name, "SRD");
    assert_eq!(citations[0].page, None);
}

#[test]
fn agent_service_test_parse_citations_with_inline_quote() {
    let text = "Lantern orbits Mirovia. [Source: \"Quickstart.pdf\", p.9, quote: \"The space station Lantern orbits the silver clouds of the planet Mirovia.\"]";
    let citations = parse_citations(text);
    assert_eq!(citations.len(), 1);
    assert_eq!(citations[0].source_name, "Quickstart.pdf");
    assert_eq!(citations[0].page, Some(9));
    assert_eq!(
        citations[0].text_excerpt,
        "The space station Lantern orbits the silver clouds of the planet Mirovia."
    );
}

#[test]
fn citation_test_parse_citations_with_inline_quote() {
    let text = "Lantern orbits Mirovia. [Source: \"Quickstart.pdf\", p.9, quote: \"The space station Lantern orbits the silver clouds of the planet Mirovia.\"]";
    let citations = parse_citations(text);
    assert_eq!(citations.len(), 1);
    assert_eq!(citations[0].source_name, "Quickstart.pdf");
    assert_eq!(citations[0].page, Some(9));
    assert_eq!(
        citations[0].text_excerpt,
        "The space station Lantern orbits the silver clouds of the planet Mirovia."
    );
}

#[test]
fn agent_service_test_parse_citations_inline_quote_with_page_range() {
    let text = "[Source: \"PHB\", p.45-49, quote: \"Combat proceeds in rounds.\"]";
    let citations = parse_citations(text);
    assert_eq!(citations.len(), 1);
    assert_eq!(citations[0].page, Some(45));
    assert_eq!(citations[0].text_excerpt, "Combat proceeds in rounds.");
}

#[test]
fn citation_test_parse_citations_inline_quote_with_page_range() {
    let text = "[Source: \"PHB\", p.45-49, quote: \"Combat proceeds in rounds.\"]";
    let citations = parse_citations(text);
    assert_eq!(citations.len(), 1);
    assert_eq!(citations[0].page, Some(45));
    assert_eq!(citations[0].text_excerpt, "Combat proceeds in rounds.");
}

#[test]
fn agent_service_test_parse_citations_plural_quotes_with_multiple_excerpts() {
    let text = "[Source: \"Coriolis EN.pdf\", p.214-215, quotes: \"Secure dangerous artifacts for... the Draconites\" and \"Prevent the spread of dangerous bionics for... the Draconites\"]";
    let citations = parse_citations(text);
    assert_eq!(citations.len(), 1);
    assert_eq!(citations[0].source_name, "Coriolis EN.pdf");
    assert_eq!(citations[0].page, Some(214));
    // The first excerpt is captured as the supporting quote.
    assert_eq!(
        citations[0].text_excerpt,
        "Secure dangerous artifacts for... the Draconites"
    );
}

#[test]
fn citation_test_parse_citations_plural_quotes_with_multiple_excerpts() {
    let text = "[Source: \"Coriolis EN.pdf\", p.214-215, quotes: \"Secure dangerous artifacts for... the Draconites\" and \"Prevent the spread of dangerous bionics for... the Draconites\"]";
    let citations = parse_citations(text);
    assert_eq!(citations.len(), 1);
    assert_eq!(citations[0].source_name, "Coriolis EN.pdf");
    assert_eq!(citations[0].page, Some(214));
    // The first excerpt is captured as the supporting quote.
    assert_eq!(
        citations[0].text_excerpt,
        "Secure dangerous artifacts for... the Draconites"
    );
}

#[test]
fn agent_service_test_parse_citations_page_range() {
    let cases = [
        (
            "[Source: \"Quickstart.pdf\", p.9-9]",
            "Quickstart.pdf",
            Some(9),
        ),
        (
            "[Source: \"Quickstart.pdf\", p.45-49]",
            "Quickstart.pdf",
            Some(45),
        ),
        ("[Source: \"PHB\", p. 72-72]", "PHB", Some(72)),
    ];
    for (input, expected_name, expected_page) in cases {
        let citations = parse_citations(input);
        assert_eq!(citations.len(), 1, "no match for {input:?}");
        assert_eq!(citations[0].source_name, expected_name);
        assert_eq!(citations[0].page, expected_page);
    }
}

#[test]
fn citation_test_parse_citations_page_range() {
    let cases = [
        (
            "[Source: \"Quickstart.pdf\", p.9-9]",
            "Quickstart.pdf",
            Some(9),
        ),
        (
            "[Source: \"Quickstart.pdf\", p.45-49]",
            "Quickstart.pdf",
            Some(45),
        ),
        ("[Source: \"PHB\", p. 72-72]", "PHB", Some(72)),
    ];
    for (input, expected_name, expected_page) in cases {
        let citations = parse_citations(input);
        assert_eq!(citations.len(), 1, "no match for {input:?}");
        assert_eq!(citations[0].source_name, expected_name);
        assert_eq!(citations[0].page, expected_page);
    }
}

#[test]
fn context_test_build_context_empty() {
    let ctx = build_context(&[]);
    assert!(ctx.is_empty());
}

#[test]
fn context_test_build_context_with_results() {

    let results = vec![SearchResult {
        chunk_id: "chunk-1".into(),
        source_id: "source:abc".into(),
        source_name: "PHB.pdf".into(),
        text: "A fighter can use Action Surge once per rest.".into(),
        page_start: 72,
        page_end: 72,
        section_heading: "Fighter Class Features".into(),
        source_type: "rules".into(),
        is_gm_only: false,
    }];

    let ctx = build_context(&results);
    assert!(!ctx.is_empty());
    assert!(ctx.contains("PHB.pdf"));
    assert!(ctx.contains("p. 72-72"));
    assert!(ctx.contains("Action Surge"));
}

#[test]
fn context_notes_excerpt_collapses_and_truncates() {
    assert_eq!(notes_excerpt(None), None);
    assert_eq!(notes_excerpt(Some("   ")), None);
    assert_eq!(
        notes_excerpt(Some("line one\n\nline  two")),
        Some("line one line two".to_string())
    );
    let long = "x ".repeat(400); // 400 single-char words
    let out = notes_excerpt(Some(&long)).unwrap();
    assert!(out.ends_with('…'), "expected ellipsis: {out}");
    assert_eq!(out.chars().count(), NOTES_EXCERPT_LEN + 1);
}

#[test]
fn context_tests_test_build_context_empty() {
let ctx = build_context(&[]);
assert!(ctx.is_empty());
}

#[test]
fn context_tests_test_build_context_with_results() {

let results = vec![SearchResult {
    chunk_id: "chunk-1".into(),
    source_id: "source:abc".into(),
    source_name: "PHB.pdf".into(),
    text: "A fighter can use Action Surge once per rest.".into(),
    page_start: 72,
    page_end: 72,
    section_heading: "Fighter Class Features".into(),
    source_type: "rules".into(),
    is_gm_only: false,
}];

let ctx = build_context(&results);
assert!(!ctx.is_empty());
assert!(ctx.contains("PHB.pdf"));
assert!(ctx.contains("p. 72-72"));
assert!(ctx.contains("Action Surge"));
}

#[test]
fn context_tests_notes_excerpt_collapses_and_truncates() {
assert_eq!(notes_excerpt(None), None);
assert_eq!(notes_excerpt(Some("   ")), None);
assert_eq!(
    notes_excerpt(Some("line one\n\nline  two")),
    Some("line one line two".to_string())
);
let long = "x ".repeat(400); // 400 single-char words
let out = notes_excerpt(Some(&long)).unwrap();
assert!(out.ends_with('…'), "expected ellipsis: {out}");
assert_eq!(out.chars().count(), NOTES_EXCERPT_LEN + 1);
}
