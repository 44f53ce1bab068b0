//! A line-oriented text search library: splits a text into numbered lines,
//! filters them by a query (substring or whole-word, case-sensitive or not,
//! optionally inverted), and wraps every occurrence of the query in a matching
//! line with highlight markers.

pub mod chars;
pub mod config;
pub mod engine;
pub mod highlight;
pub mod matching;
pub mod model;
pub mod search;
pub mod strutil;
