use chronacle::chunker::heading::is_heading;
use chronacle::chunker::types::{ExtractedDoc, PageContent};
use chronacle::chunker::window::{approx_token_count, chunk_document, CHARS_PER_TOKEN, OVERLAP_TOKENS, TARGET_TOKENS};


    
    // ── Token count tests ─────────────────────────────────────────

    #[test]
    fn chunker_test_approx_token_count_empty() {
        assert_eq!(approx_token_count(""), 0);
    }

    #[test]
    fn chunker_test_approx_token_count_short() {
        // "hello world" = 11 chars → 11/4 = 2.75 → 3
        assert_eq!(approx_token_count("hello world"), 3);
    }

    #[test]
    fn chunker_test_approx_token_count_typical() {
        let text = "The fighter swings his greatsword at the dragon, dealing 12 points of slashing damage.";
        // ~87 chars → 87/4 ≈ 22 tokens
        assert_eq!(approx_token_count(text), 22);
    }

    // ── Section detection tests ───────────────────────────────────

    #[test]
    fn chunker_test_is_heading_empty_line() {
        assert!(!is_heading(""));
        assert!(!is_heading("   "));
    }

    #[test]
    fn chunker_test_is_heading_chapter_pattern() {
        assert!(is_heading("Chapter 1: Introduction"));
        assert!(is_heading("Chapter 2"));
        assert!(is_heading("PART ONE: THE BASIC RULES"));
        assert!(is_heading("Part Two: Combat"));
        assert!(is_heading("Section 3: Magic"));
        assert!(is_heading("Appendix A: Conditions"));
    }

    #[test]
    fn chunker_test_is_heading_numbered_section() {
        assert!(is_heading("1. Combat"));
        assert!(is_heading("3.5 Skills"));
        assert!(is_heading("10.2.1 Saving Throws"));
    }

    #[test]
    fn chunker_test_is_heading_all_caps() {
        assert!(is_heading("COMBAT"));
        assert!(is_heading("USING ABILITIES"));
        assert!(is_heading("SPELL DESCRIPTIONS"));
        assert!(is_heading("DAMAGE AND HEALING"));
    }

    #[test]
    fn chunker_test_is_not_heading_regular_sentence() {
        assert!(!is_heading(
            "The fighter attacks the dragon with a longsword."
        ));
        assert!(!is_heading(
            "This is a paragraph of regular text that describes how combat works in the game."
        ));
    }

    #[test]
    fn chunker_test_is_not_heading_too_long_all_caps() {
        // 20+ words all caps is likely a table or block, not a heading
        assert!(!is_heading("THIS IS A VERY LONG ALL CAPS LINE THAT LOOKS LIKE A TABLE OR DATA BLOCK AND NOT A HEADING"));
    }

    #[test]
    fn chunker_test_is_not_heading_lowercase_line() {
        assert!(!is_heading("combat rules"));
        assert!(!is_heading("using abilities"));
    }

    #[test]
    fn chunker_test_is_heading_short_caps_with_punctuation() {
        // Short ALL-CAPS with punctuation should still be headings
        assert!(is_heading("WARNING!"));
        assert!(is_heading("STOP!"));
    }

    // ── Title-Case heading rule ──────────────────────────────────

    #[test]
    fn chunker_title_case_short_lines_are_headings() {
        assert!(is_heading("Coriolis and Kua"));
        assert!(is_heading("Combat Rules"));
        assert!(is_heading("The Brave Companions of Old"));
        assert!(is_heading("Order of the Pariah"));
        assert!(is_heading("Magic")); // single word, 5 chars
    }

    #[test]
    fn chunker_title_case_with_terminal_punctuation_is_not_heading() {
        assert!(!is_heading("The Brave Companions of Old."));
        assert!(!is_heading("Combat Rules!"));
    }

    #[test]
    fn chunker_lowercase_non_stopword_disqualifies() {
        // "orbits" is not capitalized → not a heading
        assert!(!is_heading("Coriolis orbits Kua"));
        // "from" is a stopword (ok lowercase), "stars" is not capitalized
        assert!(!is_heading("Travelers from distant stars"));
    }

    #[test]
    fn chunker_single_short_word_is_not_heading() {
        // Filter out single-letter "headings" like A / I
        assert!(!is_heading("A"));
        assert!(!is_heading("I"));
        assert!(!is_heading("Or"));
    }

    #[test]
    fn chunker_long_title_case_line_is_not_heading() {
        // >10 words is body text, not a heading
        assert!(!is_heading(
            "The Center of the Third Horizon and the Kua System and the Coriolis Station"
        ));
    }

    // ── Chunking tests ────────────────────────────────────────────

    fn make_doc(text: &str, pages: Vec<(&str, usize)>) -> ExtractedDoc {
        let pages: Vec<PageContent> = pages
            .into_iter()
            .map(|(t, n)| PageContent {
                page_num: n,
                text: t.to_string(),
            })
            .collect();
        ExtractedDoc {
            page_count: pages.len(),
            text: text.to_string(),
            pages,
        }
    }

    #[test]
    fn chunker_test_chunk_empty_document() {
        let doc = make_doc("", vec![("", 1)]);
        let chunks = chunk_document(&doc);
        assert!(chunks.is_empty());
    }

    #[test]
    fn chunker_test_chunk_single_short_document() {
        let text = "The fighter attacks the dragon.";
        let doc = make_doc(text, vec![(text, 1)]);
        let chunks = chunk_document(&doc);
        assert_eq!(chunks.len(), 1);
        assert_eq!(chunks[0].text, text);
        assert_eq!(chunks[0].page_start, 1);
        assert_eq!(chunks[0].page_end, 1);
    }

    #[test]
    fn chunker_test_chunk_preserves_page_range() {
        let p1 = "This is page one of the document. It introduces the basic rules of combat. "
            .repeat(30);
        let p2 =
            "Page two continues with advanced combat techniques and special maneuvers. ".repeat(40);

        let full_text = format!("{p1}{p2}");
        let doc = make_doc(&full_text, vec![(&p1, 1), (&p2, 2)]);

        let chunks = chunk_document(&doc);
        assert!(chunks.len() >= 2, "should split into multiple chunks");

        // First chunk should be on page 1
        assert_eq!(chunks[0].page_start, 1);
        // Last chunk should include page 2
        assert_eq!(chunks.last().unwrap().page_end, 2);
    }

    #[test]
    fn chunker_test_chunk_section_heading_attached() {
        let text = "\
Chapter 1: COMBAT
The combat section describes how battles work in the game. "
            .repeat(80);
        let doc = make_doc(&text, vec![(text.as_str(), 1)]);
        let chunks = chunk_document(&doc);

        // All chunks should have "Chapter 1: COMBAT" as their section heading
        for chunk in &chunks {
            assert_eq!(chunk.section_heading, "Chapter 1: COMBAT");
        }
    }

    #[test]
    fn chunker_test_chunk_multiple_sections() {
        let intro = "\
Chapter 1: INTRODUCTION
This is the introductory section that explains the basics of the game. "
            .repeat(20);
        let combat = "\
Chapter 2: COMBAT
This section explains the detailed rules for combat encounters. "
            .repeat(30);
        let text = format!("{intro}{combat}");

        let pages = vec![(text.as_str(), 1)];
        let doc = make_doc(&text, pages);

        // Verify the full text is long enough to need at least the chapter break
        let target_chars = TARGET_TOKENS * CHARS_PER_TOKEN;
        assert!(
            text.len() > target_chars * 2,
            "test text must be long enough to span multiple chunks"
        );

        let chunks = chunk_document(&doc);
        assert!(chunks.len() >= 2, "should produce at least 2 chunks");

        // At least some chunks should carry a section heading
        let has_any_heading = chunks.iter().any(|c| !c.section_heading.is_empty());
        assert!(has_any_heading, "chunks should have section headings");
    }

    #[test]
    fn chunker_test_chunk_respects_section_boundaries() {
        // Build text where section headings are within the overlap zone
        let intro_text = "Introductory text about the game world and characters. ".repeat(50);
        let combat_text = "Detailed combat rules describing attacks and damage. ".repeat(50);

        let text =
            format!("Chapter 1: INTRODUCTION\n{intro_text}\nChapter 2: COMBAT\n{combat_text}");

        let doc = make_doc(&text, vec![(text.as_str(), 1)]);
        let chunks = chunk_document(&doc);

        // A chunk should be split at Chapter 2 boundary
        let intro_chunks: Vec<_> = chunks
            .iter()
            .filter(|c| c.section_heading == "Chapter 1: INTRODUCTION")
            .collect();
        let combat_chunks: Vec<_> = chunks
            .iter()
            .filter(|c| c.section_heading == "Chapter 2: COMBAT")
            .collect();

        assert!(!intro_chunks.is_empty(), "should have intro chunks");
        assert!(!combat_chunks.is_empty(), "should have combat chunks");

        // All intro chunks should come before combat chunks
        let first_combat = chunks
            .iter()
            .position(|c| c.section_heading == "Chapter 2: COMBAT")
            .unwrap();
        let last_intro = chunks
            .iter()
            .rposition(|c| c.section_heading == "Chapter 1: INTRODUCTION")
            .unwrap();
        assert!(
            last_intro < first_combat,
            "intro chunks should precede combat chunks"
        );
    }

    #[test]
    fn chunker_test_chunk_very_long_document_creates_multiple_chunks() {
        let text = "This is a sample paragraph of text about TTRPG rules. ".repeat(500);
        let doc = make_doc(&text, vec![(text.as_str(), 1)]);

        let chunks = chunk_document(&doc);
        assert!(
            chunks.len() >= 3,
            "long document should produce multiple chunks"
        );

        // Verify chunks don't overlap excessively and maintain ordering
        for (i, chunk) in chunks.iter().enumerate().skip(1) {
            let prev_text = &chunks[i - 1].text;
            assert!(
                chunk
                    .text
                    .contains(prev_text.split_whitespace().last().unwrap_or("")),
                "consecutive chunks should have overlap"
            );
        }
    }

    #[test]
    fn chunker_test_chunk_no_duplicate_empty_chunks() {
        let text = "A B C. ".repeat(5);
        let doc = make_doc(&text, vec![(text.as_str(), 1)]);
        let chunks = chunk_document(&doc);

        // No chunk should be empty or whitespace-only
        for chunk in &chunks {
            assert!(!chunk.text.trim().is_empty(), "no empty chunks allowed");
        }
    }

    #[test]
    fn chunker_test_is_heading_chapter_variants() {
        assert!(is_heading("CHAPTER 1: INTRODUCTION"));
        assert!(is_heading("Chapter 1: Introduction"));
        assert!(is_heading("chapter 1: introduction"));
        assert!(is_heading("Part 2: The Rules of the Game"));
        assert!(is_heading("Section 4: Magic Items"));
        assert!(is_heading("Appendix B: Spells"));
    }

    #[test]
    fn chunker_test_chunk_multipage_range() {
        // Single long page → many chunks
        let text = "Combat rules paragraph. ".repeat(300);
        let doc = make_doc(&text, vec![(text.as_str(), 1)]);
        let chunks = chunk_document(&doc);
        assert!(chunks.len() >= 2);
        for c in &chunks {
            assert_eq!(c.page_start, 1);
            assert_eq!(c.page_end, 1);
        }
    }

    #[test]
    fn chunker_test_chunk_with_headings_splits_at_boundaries() {
        // Build text with many headings close together
        let body = "Some descriptive text about this game mechanic. ".repeat(10);
        let sections: Vec<String> = (1..=5)
            .map(|i| format!("Chapter {i}: SECTION {i}\n{body}"))
            .collect();
        let text = sections.join("\n");

        let doc = make_doc(&text, vec![(text.as_str(), 1)]);
        let chunks = chunk_document(&doc);

        // Verify multiple sections produce multiple chunks
        assert!(
            chunks.len() >= 2,
            "multiple sections should produce multiple chunks"
        );

        // At least some chunks should carry a section heading
        let has_any_heading = chunks.iter().any(|c| !c.section_heading.is_empty());
        assert!(has_any_heading, "chunks should have section headings");
    }

    // ── Sentence-aware chunking tests ─────────────────────────────

    #[test]
    fn chunker_target_chunk_size_is_about_250_tokens() {
        assert_eq!(TARGET_TOKENS, 250);
        assert_eq!(OVERLAP_TOKENS, 50);
    }

    #[test]
    fn chunker_chunks_dont_end_mid_sentence() {
        let text = "First sentence ends here. Second sentence is longer and continues. \
                    Third sentence wraps up. "
            .repeat(60);
        let doc = make_doc(&text, vec![(text.as_str(), 1)]);
        let chunks = chunk_document(&doc);
        assert!(chunks.len() >= 2);
        for c in &chunks {
            let last_char = c.text.trim_end().chars().last().unwrap_or('.');
            assert!(
                ['.', '!', '?', '"', ')'].contains(&last_char),
                "chunk ends mid-sentence: {:?}",
                c.text.chars().rev().take(40).collect::<String>()
            );
        }
    }

    #[test]
    fn chunker_chunks_dont_start_mid_word() {
        let text = "Some sample text about combat. ".repeat(80);
        let doc = make_doc(&text, vec![(text.as_str(), 1)]);
        let chunks = chunk_document(&doc);
        for c in &chunks {
            let first_word = c.text.split_whitespace().next().unwrap_or("");
            if let Some(first) = first_word.chars().next() {
                assert!(
                    first.is_alphabetic() || first.is_numeric() || first == '"' || first == '(',
                    "chunk starts mid-word: {first_word:?}"
                );
            }
        }
    }


// ── Token count tests ─────────────────────────────────────────

#[test]
fn tests_heading_test_approx_token_count_empty() {
    assert_eq!(approx_token_count(""), 0);
}

#[test]
fn tests_heading_test_approx_token_count_short() {
    // "hello world" = 11 chars → 11/4 = 2.75 → 3
    assert_eq!(approx_token_count("hello world"), 3);
}

#[test]
fn tests_heading_test_approx_token_count_typical() {
    let text = "The fighter swings his greatsword at the dragon, dealing 12 points of slashing damage.";
    // ~87 chars → 87/4 ≈ 22 tokens
    assert_eq!(approx_token_count(text), 22);
}

// ── Section detection tests ───────────────────────────────────

#[test]
fn tests_heading_test_is_heading_empty_line() {
    assert!(!is_heading(""));
    assert!(!is_heading("   "));
}

#[test]
fn tests_heading_test_is_heading_chapter_pattern() {
    assert!(is_heading("Chapter 1: Introduction"));
    assert!(is_heading("Chapter 2"));
    assert!(is_heading("PART ONE: THE BASIC RULES"));
    assert!(is_heading("Part Two: Combat"));
    assert!(is_heading("Section 3: Magic"));
    assert!(is_heading("Appendix A: Conditions"));
}

#[test]
fn tests_heading_test_is_heading_numbered_section() {
    assert!(is_heading("1. Combat"));
    assert!(is_heading("3.5 Skills"));
    assert!(is_heading("10.2.1 Saving Throws"));
}

#[test]
fn tests_heading_test_is_heading_all_caps() {
    assert!(is_heading("COMBAT"));
    assert!(is_heading("USING ABILITIES"));
    assert!(is_heading("SPELL DESCRIPTIONS"));
    assert!(is_heading("DAMAGE AND HEALING"));
}

#[test]
fn tests_heading_test_is_not_heading_regular_sentence() {
    assert!(!is_heading(
        "The fighter attacks the dragon with a longsword."
    ));
    assert!(!is_heading(
        "This is a paragraph of regular text that describes how combat works in the game."
    ));
}

#[test]
fn tests_heading_test_is_not_heading_too_long_all_caps() {
    // 20+ words all caps is likely a table or block, not a heading
    assert!(!is_heading("THIS IS A VERY LONG ALL CAPS LINE THAT LOOKS LIKE A TABLE OR DATA BLOCK AND NOT A HEADING"));
}

#[test]
fn tests_heading_test_is_not_heading_lowercase_line() {
    assert!(!is_heading("combat rules"));
    assert!(!is_heading("using abilities"));
}

#[test]
fn tests_heading_test_is_heading_short_caps_with_punctuation() {
    // Short ALL-CAPS with punctuation should still be headings
    assert!(is_heading("WARNING!"));
    assert!(is_heading("STOP!"));
}

// ── Title-Case heading rule ──────────────────────────────────

#[test]
fn tests_heading_title_case_short_lines_are_headings() {
    assert!(is_heading("Lantern and Mirovia"));
    assert!(is_heading("Combat Rules"));
    assert!(is_heading("The Brave Companions of Old"));
    assert!(is_heading("Vows of the Lumen Order"));
    assert!(is_heading("Magic")); // single word, 5 chars
}

#[test]
fn tests_heading_title_case_with_terminal_punctuation_is_not_heading() {
    assert!(!is_heading("The Brave Companions of Old."));
    assert!(!is_heading("Combat Rules!"));
}

#[test]
fn tests_heading_lowercase_non_stopword_disqualifies() {
    // "orbits" is not capitalized → not a heading
    assert!(!is_heading("Lantern orbits Mirovia"));
    // "from" is a stopword (ok lowercase), "stars" is not capitalized
    assert!(!is_heading("Travelers from distant stars"));
}

#[test]
fn tests_heading_single_short_word_is_not_heading() {
    // Filter out single-letter "headings" like A / I
    assert!(!is_heading("A"));
    assert!(!is_heading("I"));
    assert!(!is_heading("Or"));
}

#[test]
fn tests_heading_long_title_case_line_is_not_heading() {
    // >10 words is body text, not a heading
    assert!(!is_heading(
        "The Center of the Ember Reach and the Velmar System and the Lantern Station"
    ));
}

#[test]
fn tests_heading_test_is_heading_chapter_variants() {
    assert!(is_heading("CHAPTER 1: INTRODUCTION"));
    assert!(is_heading("Chapter 1: Introduction"));
    assert!(is_heading("chapter 1: introduction"));
    assert!(is_heading("Part 2: The Rules of the Game"));
    assert!(is_heading("Section 4: Magic Items"));
    assert!(is_heading("Appendix B: Spells"));
}


fn make_doc2(text: &str, pages: Vec<(&str, usize)>) -> ExtractedDoc {
    let pages: Vec<PageContent> = pages
        .into_iter()
        .map(|(t, n)| PageContent {
            page_num: n,
            text: t.to_string(),
        })
        .collect();
    ExtractedDoc {
        page_count: pages.len(),
        text: text.to_string(),
        pages,
    }
}

#[test]
fn tests_chunking_test_chunk_empty_document() {
    let doc = make_doc2("", vec![("", 1)]);
    let chunks = chunk_document(&doc);
    assert!(chunks.is_empty());
}

#[test]
fn tests_chunking_test_chunk_single_short_document() {
    let text = "The fighter attacks the dragon.";
    let doc = make_doc2(text, vec![(text, 1)]);
    let chunks = chunk_document(&doc);
    assert_eq!(chunks.len(), 1);
    assert_eq!(chunks[0].text, text);
    assert_eq!(chunks[0].page_start, 1);
    assert_eq!(chunks[0].page_end, 1);
}

#[test]
fn tests_chunking_test_chunk_preserves_page_range() {
    let p1 = "This is page one of the document. It introduces the basic rules of combat. "
        .repeat(30);
    let p2 =
        "Page two continues with advanced combat techniques and special maneuvers. ".repeat(40);

    let full_text = format!("{p1}{p2}");
    let doc = make_doc2(&full_text, vec![(&p1, 1), (&p2, 2)]);

    let chunks = chunk_document(&doc);
    assert!(chunks.len() >= 2, "should split into multiple chunks");

    // First chunk should be on page 1
    assert_eq!(chunks[0].page_start, 1);
    // Last chunk should include page 2
    assert_eq!(chunks.last().unwrap().page_end, 2);
}

#[test]
fn tests_chunking_test_chunk_section_heading_attached() {
    let text = "\
Chapter 1: COMBAT
The combat section describes how battles work in the game. "
        .repeat(80);
    let doc = make_doc2(&text, vec![(text.as_str(), 1)]);
    let chunks = chunk_document(&doc);

    // All chunks should have "Chapter 1: COMBAT" as their section heading
    for chunk in &chunks {
        assert_eq!(chunk.section_heading, "Chapter 1: COMBAT");
    }
}

#[test]
fn tests_chunking_test_chunk_multiple_sections() {
    let intro = "\
Chapter 1: INTRODUCTION
This is the introductory section that explains the basics of the game. "
        .repeat(20);
    let combat = "\
Chapter 2: COMBAT
This section explains the detailed rules for combat encounters. "
        .repeat(30);
    let text = format!("{intro}{combat}");

    let pages = vec![(text.as_str(), 1)];
    let doc = make_doc2(&text, pages);

    let target_chars = (TARGET_TOKENS as f64 * 4.0) as usize;
    assert!(
        text.len() > target_chars * 2,
        "test text must be long enough to span multiple chunks"
    );

    let chunks = chunk_document(&doc);
    assert!(chunks.len() >= 2, "should produce at least 2 chunks");

    let has_any_heading = chunks.iter().any(|c| !c.section_heading.is_empty());
    assert!(has_any_heading, "chunks should have section headings");
}

#[test]
fn tests_chunking_test_chunk_respects_section_boundaries() {
    let intro_text = "Introductory text about the game world and characters. ".repeat(50);
    let combat_text = "Detailed combat rules describing attacks and damage. ".repeat(50);

    let text =
        format!("Chapter 1: INTRODUCTION\n{intro_text}\nChapter 2: COMBAT\n{combat_text}");

    let doc = make_doc2(&text, vec![(text.as_str(), 1)]);
    let chunks = chunk_document(&doc);

    let intro_chunks: Vec<_> = chunks
        .iter()
        .filter(|c| c.section_heading == "Chapter 1: INTRODUCTION")
        .collect();
    let combat_chunks: Vec<_> = chunks
        .iter()
        .filter(|c| c.section_heading == "Chapter 2: COMBAT")
        .collect();

    assert!(!intro_chunks.is_empty(), "should have intro chunks");
    assert!(!combat_chunks.is_empty(), "should have combat chunks");

    let first_combat = chunks
        .iter()
        .position(|c| c.section_heading == "Chapter 2: COMBAT")
        .unwrap();
    let last_intro = chunks
        .iter()
        .rposition(|c| c.section_heading == "Chapter 1: INTRODUCTION")
        .unwrap();
    assert!(
        last_intro < first_combat,
        "intro chunks should precede combat chunks"
    );
}

#[test]
fn tests_chunking_test_chunk_very_long_document_creates_multiple_chunks() {
    let text = "This is a sample paragraph of text about TTRPG rules. ".repeat(500);
    let doc = make_doc2(&text, vec![(text.as_str(), 1)]);

    let chunks = chunk_document(&doc);
    assert!(
        chunks.len() >= 3,
        "long document should produce multiple chunks"
    );

    for (i, chunk) in chunks.iter().enumerate().skip(1) {
        let prev_text = &chunks[i - 1].text;
        assert!(
            chunk
                .text
                .contains(prev_text.split_whitespace().last().unwrap_or("")),
            "consecutive chunks should have overlap"
        );
    }
}

#[test]
fn tests_chunking_test_chunk_no_duplicate_empty_chunks() {
    let text = "A B C. ".repeat(5);
    let doc = make_doc2(&text, vec![(text.as_str(), 1)]);
    let chunks = chunk_document(&doc);

    for chunk in &chunks {
        assert!(!chunk.text.trim().is_empty(), "no empty chunks allowed");
    }
}

#[test]
fn tests_chunking_test_chunk_multipage_range() {
    let text = "Combat rules paragraph. ".repeat(300);
    let doc = make_doc2(&text, vec![(text.as_str(), 1)]);
    let chunks = chunk_document(&doc);
    assert!(chunks.len() >= 2);
    for c in &chunks {
        assert_eq!(c.page_start, 1);
        assert_eq!(c.page_end, 1);
    }
}

#[test]
fn tests_chunking_test_chunk_with_headings_splits_at_boundaries() {
    let body = "Some descriptive text about this game mechanic. ".repeat(10);
    let sections: Vec<String> = (1..=5)
        .map(|i| format!("Chapter {i}: SECTION {i}\n{body}"))
        .collect();
    let text = sections.join("\n");

    let doc = make_doc2(&text, vec![(text.as_str(), 1)]);
    let chunks = chunk_document(&doc);

    assert!(
        chunks.len() >= 2,
        "multiple sections should produce multiple chunks"
    );

    let has_any_heading = chunks.iter().any(|c| !c.section_heading.is_empty());
    assert!(has_any_heading, "chunks should have section headings");
}

// ── Sentence-aware chunking tests ─────────────────────────────

#[test]
fn tests_chunking_target_chunk_size_is_about_250_tokens() {
    assert_eq!(TARGET_TOKENS, 250);
    assert_eq!(OVERLAP_TOKENS, 50);
}

#[test]
fn tests_chunking_chunks_dont_end_mid_sentence() {
    let text = "First sentence ends here. Second sentence is longer and continues. \
                Third sentence wraps up. "
        .repeat(60);
    let doc = make_doc2(&text, vec![(text.as_str(), 1)]);
    let chunks = chunk_document(&doc);
    assert!(chunks.len() >= 2);
    for c in &chunks {
        let last_char = c.text.trim_end().chars().last().unwrap_or('.');
        assert!(
            ['.', '!', '?', '"', ')'].contains(&last_char),
            "chunk ends mid-sentence: {:?}",
            c.text.chars().rev().take(40).collect::<String>()
        );
    }
}

#[test]
fn tests_chunking_chunks_dont_start_mid_word() {
    let text = "Some sample text about combat. ".repeat(80);
    let doc = make_doc2(&text, vec![(text.as_str(), 1)]);
    let chunks = chunk_document(&doc);
    for c in &chunks {
        let first_word = c.text.split_whitespace().next().unwrap_or("");
        if let Some(first) = first_word.chars().next() {
            assert!(
                first.is_alphabetic() || first.is_numeric() || first == '"' || first == '(',
                "chunk starts mid-word: {first_word:?}"
            );
        }
    }
}
