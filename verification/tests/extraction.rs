use chronacle::entity::EntityKind;
use chronacle::extraction::{build_extraction_prompt, build_profile_prompt, build_seed_prompt, parse_kind};

#[test]
fn extraction_service_build_extraction_prompt_contains_chunk_text() {
    let prompt = build_extraction_prompt("The Iron Fist faction rules the docks.");
    assert!(prompt.contains("The Iron Fist faction rules the docks."));
    assert!(prompt.contains("entities"));
    assert!(prompt.contains("JSON"));
}

#[test]
fn extraction_service_build_seed_prompt_anchors_on_entity_name() {
    let prompt = build_seed_prompt("Commander Varn", "Varn leads the Iron Fist.");
    assert!(prompt.contains("Commander Varn"));
    assert!(prompt.contains("Varn leads the Iron Fist."));
    assert!(prompt.contains("entities"));
    assert!(prompt.contains("JSON"));
}

#[test]
fn parse_kind_falls_back_to_misc_for_unknown() {
    assert_eq!(parse_kind("dragon_lord"), EntityKind::Misc);
    assert_eq!(parse_kind("npc"), EntityKind::Npc);
}

#[test]
fn prompts_build_extraction_prompt_contains_chunk_text() {
    let prompt = build_extraction_prompt("The Iron Fist faction rules the docks.");
    assert!(prompt.contains("The Iron Fist faction rules the docks."));
    assert!(prompt.contains("entities"));
    assert!(prompt.contains("JSON"));
}

#[test]
fn prompts_build_seed_prompt_anchors_on_entity_name() {
    let prompt = build_seed_prompt("Commander Varn", "Varn leads the Iron Fist.");
    assert!(prompt.contains("Commander Varn"));
    assert!(prompt.contains("Varn leads the Iron Fist."));
    assert!(prompt.contains("entities"));
    assert!(prompt.contains("JSON"));
}

#[test]
fn extraction_prompt_defines_kinds_and_rel_vocab() {
    let prompt = build_extraction_prompt("any text");
    assert!(prompt.contains("faction:"));
    assert!(prompt.contains("noble house, family, or clan"));
    assert!(prompt.contains("creature:"));
    assert!(prompt.contains("player_character:"));
    assert!(prompt.contains("leads / led_by"));
    assert!(prompt.contains("parent_of / child_of"));
    assert!(prompt.contains("allied_with"));
    // The LLM must be told to emit a single snake_case token, not the slash pair.
    assert!(prompt.contains("EXACTLY ONE snake_case value"));
}

#[test]
fn seed_prompt_defines_kinds_and_rel_vocab() {
    let prompt = build_seed_prompt("Varn", "Varn leads the Iron Fist.");
    assert!(prompt.contains("noble house, family, or clan"));
    assert!(prompt.contains("leads / led_by"));
    assert!(prompt.contains("parent_of / child_of"));
    assert!(prompt.contains("EXACTLY ONE snake_case value"));
}

#[test]
fn profile_prompt_omits_kind_and_rel_vocab() {
    // The enrichment/profile pass describes one entity — it classifies no
    // kinds and extracts no relations, so it must NOT carry either block.
    let prompt = build_profile_prompt("Varn", "Varn leads the Iron Fist.");
    assert!(!prompt.contains("Entity kinds"));
    assert!(!prompt.contains("Relationship types"));
}

#[test]
fn build_profile_prompt_anchors_on_name_and_omits_relations() {
    let prompt = build_profile_prompt("The Iron Fist", "The Iron Fist rules the docks.");
    assert!(prompt.contains("The Iron Fist"));
    assert!(prompt.contains("The Iron Fist rules the docks."));
    assert!(prompt.contains("summary"));
    assert!(prompt.contains("notes"));
    // The profile pass must NOT ask for relations (depth-1, description only).
    assert!(!prompt.contains("\"relations\""));
}
