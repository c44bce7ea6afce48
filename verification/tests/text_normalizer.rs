use chronacle::text_normalizer::normalize;


#[test]
fn joins_soft_hyphenated_word_at_line_break() {
    let input = "the union of\nfree traders; the mercenaries of the\nLegion";
    let output = normalize(input);
    assert!(output.contains("union of free traders"));
    assert!(output.contains("the mercenaries of the Legion"));
}

#[test]
fn removes_hyphen_at_end_of_line() {
    let input = "power-\nful";
    assert_eq!(normalize(input), "powerful");
}

#[test]
fn removes_multiple_hyphenated_breaks() {
    let input = "descen-\ndents of the cap-\ntain family";
    assert_eq!(normalize(input), "descendents of the captain family");
}

#[test]
fn preserves_paragraph_breaks() {
    let input = "First paragraph.\n\nSecond paragraph.";
    let out = normalize(input);
    assert!(out.contains("First paragraph."));
    assert!(out.contains("Second paragraph."));
    assert!(
        out.contains("\n\n"),
        "paragraph break must survive: {out:?}"
    );
}

#[test]
fn collapses_runs_of_spaces() {
    assert_eq!(normalize("a    b\t\tc"), "a b c");
}

#[test]
fn is_idempotent() {
    let input = "power-\nful descen-\ndents\n\nNew para.";
    let once = normalize(input);
    let twice = normalize(&once);
    assert_eq!(once, twice);
}

#[test]
fn does_not_join_intentional_hyphenated_compound_at_word_boundary() {
    let input = "state-of-the-art system";
    assert_eq!(normalize(input), "state-of-the-art system");
}

#[test]
fn handles_empty_string() {
    assert_eq!(normalize(""), "");
}

#[test]
fn handles_only_whitespace() {
    assert_eq!(normalize("   \n\n  \t  "), "");
}

#[test]
fn whitespace_only_line_between_paragraphs_keeps_one_break() {
    let once = normalize("a\n\n \n\nb");
    assert_eq!(once, "a\n\nb");
    assert_eq!(normalize(&once), once);
}
