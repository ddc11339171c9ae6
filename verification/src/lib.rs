//! BPC: a bit-level engine for inspecting and crafting binary protocols.

pub mod bit;
pub mod text;
pub mod layout;
pub(crate) mod shared;
pub mod format;
pub mod tui;
pub mod scripting;
