//! Chunker — splits extracted PDF text into searchable chunks.
//!
//! Pipeline: section detection → sentence-aware sliding window.
//! Chunks are tagged with their page range and active section heading.
pub mod window;
pub mod heading;
pub mod types;
