//! What holds of the operations together.

pub mod cards;
pub mod collection;
pub mod contacts;
pub mod exports;
pub mod folding;
pub mod grid;
pub mod layout;
pub mod lookup;
pub mod models;
pub mod names;
pub mod parsed;
pub mod program;
pub mod records;
pub mod rewriting;
pub mod rows;
pub mod runs;
pub mod sequences;
pub mod structures;
pub mod texts;
pub mod tokens;
pub mod values;
pub mod views;
