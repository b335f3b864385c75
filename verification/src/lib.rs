//! A note-viewing library whose core is a streaming token adapter: it wraps
//! pulldown_cmark's markdown tokenizer and collapses the five-token pattern
//! `[`, `[`, identifier, `]`, `]` into a single internal-link triple, passing
//! every other token through.

pub mod tokens;
pub mod interlink;
pub mod notes;
pub mod commands;
