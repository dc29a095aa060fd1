//! From script text to tokens, and from operator shapes to evaluated values.

pub mod expressions;
pub mod lexicon;
pub mod symbol_table;
pub mod tokenizer;
pub mod tokens;
