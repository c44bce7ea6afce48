//! Verified core of a tabletop-RPG game-master assistant: text repair,
//! chunking, prompt assembly, citation and wikilink parsing, and the
//! relationship rules of the campaign graph.
pub mod text;
pub mod text_normalizer;
pub mod unicode;
pub mod chunker;
pub mod regex_match;
pub mod sentences;
pub mod order;
pub mod entity;
pub mod decimal;
pub mod agent;
pub mod relations;
pub mod wikilink;
pub mod extraction;
pub mod extraction_steps;
pub mod ingestion;
pub mod pdf;
pub mod records;
