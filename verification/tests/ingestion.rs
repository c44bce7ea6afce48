use chronacle::chunker::types::{ExtractedDoc, PageContent};
use chronacle::ingestion::normalize_extracted;

#[test]
fn ingestion_service_normalize_extracted_removes_soft_hyphen_artifacts() {
    let raw = ExtractedDoc {
        page_count: 1,
        text: "power-\nful descen-\ndents of\nthe captain family".to_string(),
        pages: vec![PageContent {
            page_num: 1,
            text: "power-\nful descen-\ndents of\nthe captain family".to_string(),
        }],
    };
    let normalized = normalize_extracted(&raw);
    assert!(
        !normalized.text.contains("-\n"),
        "soft hyphens not removed: {:?}",
        normalized.text
    );
    assert!(normalized.text.contains("powerful"));
    assert!(normalized.text.contains("descendents"));
    assert_eq!(normalized.pages[0].text, normalized.text);
    assert_eq!(normalized.page_count, 1);
}

#[test]
fn tests_normalize_extracted_removes_soft_hyphen_artifacts() {
    let raw = ExtractedDoc {
        page_count: 1,
        text: "power-\nful descen-\ndents of\nthe captain family".to_string(),
        pages: vec![PageContent {
            page_num: 1,
            text: "power-\nful descen-\ndents of\nthe captain family".to_string(),
        }],
    };
    let normalized = normalize_extracted(&raw);
    assert!(
        !normalized.text.contains("-\n"),
        "soft hyphens not removed: {:?}",
        normalized.text
    );
    assert!(normalized.text.contains("powerful"));
    assert!(normalized.text.contains("descendents"));
    assert_eq!(normalized.pages[0].text, normalized.text);
    assert_eq!(normalized.page_count, 1);
}

#[test]
fn ingestion_service_normalize_extracted_preserves_page_boundaries() {
    let p1 = "First page paragraph.";
    let p2 = "Second page paragraph.";
    let raw = ExtractedDoc {
        page_count: 2,
        text: format!("{p1}\n{p2}"),
        pages: vec![
            PageContent {
                page_num: 1,
                text: p1.to_string(),
            },
            PageContent {
                page_num: 2,
                text: p2.to_string(),
            },
        ],
    };
    let normalized = normalize_extracted(&raw);
    assert_eq!(normalized.pages.len(), 2);
    assert_eq!(normalized.pages[0].page_num, 1);
    assert_eq!(normalized.pages[1].page_num, 2);
    assert!(normalized.text.contains(p1));
    assert!(normalized.text.contains(p2));
}

#[test]
fn tests_normalize_extracted_preserves_page_boundaries() {
    let p1 = "First page paragraph.";
    let p2 = "Second page paragraph.";
    let raw = ExtractedDoc {
        page_count: 2,
        text: format!("{p1}\n{p2}"),
        pages: vec![
            PageContent {
                page_num: 1,
                text: p1.to_string(),
            },
            PageContent {
                page_num: 2,
                text: p2.to_string(),
            },
        ],
    };
    let normalized = normalize_extracted(&raw);
    assert_eq!(normalized.pages.len(), 2);
    assert_eq!(normalized.pages[0].page_num, 1);
    assert_eq!(normalized.pages[1].page_num, 2);
    assert!(normalized.text.contains(p1));
    assert!(normalized.text.contains(p2));
}
