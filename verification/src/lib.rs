//! Core of a rich text editor: the document model, the editing commands,
//! the HTML renderer and the helpers around them.
use vstd::prelude::*;

pub mod ast;
pub mod text;
pub mod escape;
pub mod sanitize;
pub mod embed;
pub mod render;
pub mod markup;
pub mod score;
pub mod grid;
pub mod html;
pub mod model;
pub mod parser;
pub mod shorten;
pub mod crop;
pub mod palette;
pub mod classes;
pub mod table_header;
pub mod formatting;
pub mod parse_laws;
pub mod shortcuts;
pub mod slash;
pub mod commands;
pub mod edit_laws;
pub mod chart;

verus! {
} // verus!
