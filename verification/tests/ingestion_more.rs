use chronacle::chunker::types::{ExtractedDoc, PageContent};
use chronacle::ingestion::{
    chunk_text, embed_batch_ends, embed_step, normalize_extracted, page_step, split_step, splitting_step,
    writing_step,
};

fn page(n: usize, text: &str) -> PageContent {
    PageContent { page_num: n, text: text.to_string() }
}

#[test]
fn normalize_extracted_skips_newline_around_empty_pages() {
    let doc = ExtractedDoc { page_count: 9, text: String::new(), pages: vec![page(1, "a"), page(2, ""), page(3, "b")] };
    let n = normalize_extracted(&doc);
    assert_eq!(n.text, "a\nb");
    assert_eq!(n.page_count, 3);
    assert_eq!(n.pages[2].page_num, 3);
    let lead = ExtractedDoc { page_count: 2, text: String::new(), pages: vec![page(1, ""), page(2, "b")] };
    assert_eq!(normalize_extracted(&lead).text, "b");
}

#[test]
fn chunk_text_keeps_every_chunk() {
    let text = "Alpha beta gamma. Delta epsilon.";
    let doc = ExtractedDoc { page_count: 1, text: text.to_string(), pages: vec![page(1, text)] };
    let chunks = chunk_text(&doc, "src1").ok().unwrap();
    assert_eq!(chunks.len(), 1);
    assert_eq!(chunks[0].page_start, 1);
    assert_eq!(chunks[0].page_end, 1);
    assert!(chunks[0].text.contains("Delta epsilon."));
}

#[test]
fn embed_batches_report_running_counts() {
    assert_eq!(embed_batch_ends(0), Vec::<usize>::new());
    assert_eq!(embed_batch_ends(5), vec![5]);
    assert_eq!(embed_batch_ends(32), vec![32]);
    assert_eq!(embed_batch_ends(70), vec![32, 64, 70]);
}

#[test]
fn progress_labels_exact() {
    assert_eq!(page_step(3, 10), "Extracting text from page 3/10");
    assert_eq!(embed_step(64, 120), "Embedding chunks 64/120");
    assert_eq!(splitting_step(4), "Splitting 4 pages into searchable chunks");
    assert_eq!(split_step(0), "Split into 0 chunks");
    assert_eq!(writing_step(12), "Writing 12 chunks to database");
}
