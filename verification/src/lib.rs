//! Stop conditions for streaming code completion and the language table they read.

pub mod decoding;
pub mod languages;
pub mod laws;
pub mod trie;
