//! The game-master assistant: prompt assembly, the campaign-notes context
//! block and citation parsing.
pub mod prompt;
pub mod context;
pub mod citation;
