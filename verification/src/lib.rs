//! A reader for a small constructed-language notation: a recursive grammar
//! turns one line of text into a tree of words, numbers, head/complement
//! pairs and ordered sequences.

pub mod ast;
pub mod parser;
pub mod reader;
