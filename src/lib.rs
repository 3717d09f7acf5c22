//! Streaming reader and validator for chess game archives in PGN text.

pub mod lines;
pub mod movetext;
pub mod numbers;
pub mod reader;
pub mod record;
pub mod san;
pub mod tags;
pub mod text;
pub mod validate;
