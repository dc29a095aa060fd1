//! Lexical scanner, literal model and expression rules of a small scripting
//! language for tabletop-combat abilities.

pub mod game_zones;
pub mod parsing;
pub mod text;
