//! The logic of a keyboard-driven PDF reader.
use vstd::prelude::*;

pub mod app;
pub mod chord;
pub mod config;
pub mod double;
pub mod effect;
pub mod history;
pub mod keymap;
pub mod keys;
pub mod laws;
pub mod notes;
pub mod notes_dialog;
pub mod paths;
pub mod pdf;
pub mod picker;
pub mod render;
pub mod search;
pub mod text;
pub mod toc;

verus! {

} // verus!
