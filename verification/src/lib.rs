//! Compact scrollback storage for terminal grid rows.

pub mod flags;
pub mod cell;
pub mod row;
pub mod model;
pub mod wrap_lemmas;
pub mod layout_lemmas;
pub mod builder;
pub mod storage_lemmas;
pub mod storage;
pub mod content;
pub mod style_lemmas;
pub mod laws;
