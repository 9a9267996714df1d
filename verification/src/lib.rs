//! The editing core of a modal text editor: indentation, layout, motions,
//! registers, review rendering and the bookkeeping around them, with every
//! operation stated and proved over a mathematical model of the text.
#![allow(unused_imports)]
pub mod fmt;
pub mod text;
pub mod unicode;
pub mod display;
pub mod text_index;
pub mod lines;
pub mod rope;
pub mod indentation;
pub mod indent_stops;
pub mod buffer;
pub mod syntax;
pub mod paths;
pub mod file_names;
pub mod auto_indent;
pub mod lexing_moves;
pub mod nesting;
pub mod line_edits;
pub mod line_lists;
pub mod line_layout;
pub mod row_tiling;
pub mod highlight_index;
pub mod native_diff;
pub mod diff_review;
pub mod json;
pub mod text_map;
pub mod lsp;
pub mod ai;
pub mod editor;
