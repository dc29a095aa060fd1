//! Values of the game world that scripts can name.

pub mod types;
