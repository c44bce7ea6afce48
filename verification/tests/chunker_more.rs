use chronacle::chunker::types::{ExtractedDoc, PageContent};
use chronacle::chunker::window::{chunk_document, CHARS_PER_TOKEN, TARGET_TOKENS};

fn one_page_doc(text: &str) -> ExtractedDoc {
    ExtractedDoc {
        page_count: 1,
        text: text.to_string(),
        pages: vec![PageContent { page_num: 1, text: text.to_string() }],
    }
}

#[test]
fn chunks_stay_within_target_size() {
    let text = "The ranger tracks the owlbear through the misty forest at dawn. ".repeat(120);
    let chunks = chunk_document(&one_page_doc(&text));
    assert!(chunks.len() >= 2);
    for c in &chunks {
        assert!(c.text.chars().count() <= TARGET_TOKENS * CHARS_PER_TOKEN);
        assert!(!c.text.trim().is_empty());
    }
}

#[test]
fn one_long_sentence_is_one_chunk_of_its_own_length() {
    let sentence = format!("{}.", "word ".repeat(400).trim_end());
    let chunks = chunk_document(&one_page_doc(&sentence));
    assert_eq!(chunks.len(), 1);
    assert_eq!(chunks[0].text, sentence);
    assert!(chunks[0].text.chars().count() > TARGET_TOKENS * CHARS_PER_TOKEN);
}

#[test]
fn a_chunk_splits_at_a_new_section_heading() {
    let text = "Chapter 1: INTRODUCTION
The world is old. Dragons sleep.
Chapter 2: COMBAT
Attacks hit. Damage hurts.";
    let chunks = chunk_document(&one_page_doc(text));
    assert_eq!(chunks.len(), 2);
    assert_eq!(chunks[0].section_heading, "Chapter 1: INTRODUCTION");
    assert!(!chunks[0].text.contains("COMBAT"));
    assert_eq!(chunks[1].section_heading, "Chapter 2: COMBAT");
    assert!(chunks[1].text.starts_with("Chapter 2: COMBAT"));
    assert!(!chunks[1].text.contains("Dragons"));
}
