//! Document and chunk types of the chunker.
use vstd::prelude::*;

verus! {

/// A single chunk produced by the chunker.
#[derive(Debug, Clone, PartialEq)]
pub struct Chunk {
    pub text: String,
    pub page_start: i64,
    pub page_end: i64,
    pub section_heading: String,
}

/// Extracted page content fed into the chunker.
#[derive(Debug, Clone)]
pub struct PageContent {
    pub page_num: usize,
    pub text: String,
}

/// A document ready for chunking.
#[derive(Debug, Clone)]
pub struct ExtractedDoc {
    pub page_count: usize,
    pub text: String,
    pub pages: Vec<PageContent>,
}

/// The mathematical content of a [`Chunk`].
pub struct ChunkSpec {
    pub text: Seq<char>,
    pub page_start: i64,
    pub page_end: i64,
    pub section_heading: Seq<char>,
}

impl Chunk {
    pub open spec fn spec(self) -> ChunkSpec {
        ChunkSpec {
            text: self.text@,
            page_start: self.page_start,
            page_end: self.page_end,
            section_heading: self.section_heading@,
        }
    }
}

} // verus!
