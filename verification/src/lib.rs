//! A viewer for contact files: parsing of vCard text, decoding of property
//! values, and the layout of cards, tables and CSV records.

pub mod card;
pub mod cli;
pub mod csv;
pub mod decode;
pub mod fields;
pub mod format;
pub mod laws;
pub mod outside;
pub mod parse;
pub mod show;
pub mod style;
pub mod table;
pub mod text;
