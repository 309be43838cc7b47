//! Selection logic of a file manager: what a selection holds, which actions
//! it offers, how its summary reads, and how the floating footer is laid out.

pub mod footer;
pub mod item;
pub mod laws;
pub mod paths;
pub mod preview;
pub mod text;
pub mod selection;
pub mod tab;
