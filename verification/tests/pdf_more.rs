use chronacle::pdf::{assemble_page_text, body_size_key, document_from_pages, page_lines, PdfiumExtractor};

#[test]
fn body_size_is_the_most_common_key() {
    assert_eq!(body_size_key(&[20, 22, 20, 24]), 20);
    assert_eq!(body_size_key(&[]), 20);
    assert_eq!(body_size_key(&[30]), 30);
    assert_eq!(body_size_key(&[18, 24, 24]), 24);
}

#[test]
fn page_lines_split_at_breaks_and_jumps() {
    let chars: Vec<char> = "ab\ncd".chars().collect();
    assert_eq!(page_lines(&chars, &[false; 5]), vec![(0, 2), (3, 5)]);
    assert_eq!(page_lines(&chars, &[false, true, false, false, true]), vec![(0, 1), (1, 2), (3, 4), (4, 5)]);
    // a jump right after a break starts no extra line
    assert_eq!(page_lines(&chars, &[false, false, false, true, false]), vec![(0, 2), (3, 5)]);
    let breaks: Vec<char> = "\r\n".chars().collect();
    assert!(page_lines(&breaks, &[false, false]).is_empty());
}

#[test]
fn assemble_page_text_wraps_headings_in_paragraphs() {
    let lines = vec!["Intro".to_string(), "body text".to_string(), "   ".to_string(), "more".to_string()];
    assert_eq!(assemble_page_text(&lines, &[true, false, false, false]), "Intro\n\nbody text\n\nmore\n");
    let lines2 = vec!["text".to_string(), "  Title  ".to_string(), "next".to_string()];
    assert_eq!(assemble_page_text(&lines2, &[false, true, false]), "text\n\nTitle\n\nnext\n");
    let blanks = vec!["".to_string(), " ".to_string()];
    assert_eq!(assemble_page_text(&blanks, &[false, false]), "\n\n");
}

#[test]
fn document_from_pages_numbers_from_one() {
    let d = document_from_pages(vec!["x".to_string(), "".to_string(), "y".to_string()]);
    assert_eq!(d.text, "x\ny");
    assert_eq!(d.page_count, 3);
    assert_eq!(d.pages[0].page_num, 1);
    assert_eq!(d.pages[2].page_num, 3);
    assert_eq!(d.pages[2].text, "y");
}

#[test]
fn pdfium_extractor_keeps_its_library_path() {
    let p = std::path::PathBuf::from("/opt/lib/libpdfium.so");
    let e = PdfiumExtractor::new(p.clone());
    assert_eq!(e.library_path(), &p);
}
