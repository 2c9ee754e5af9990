//! Flashcard text engine: unwrapping model payloads and composing cloze
//! deletions, with the note and word-list logic around them.
pub mod anki;
pub mod cards;
pub mod cloze;
pub mod composition;
pub mod config;
pub mod flow;
pub mod notes;
pub mod payload;
pub mod text;
pub mod words;
