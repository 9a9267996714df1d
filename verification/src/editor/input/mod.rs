//! What keys do.
pub mod finding;
pub mod helpers;
pub mod paste;
pub mod pasting;
pub mod text_objects;
pub mod typing;
pub mod visual;
pub mod search;
pub mod steps;
