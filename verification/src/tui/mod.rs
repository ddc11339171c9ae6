//! Terminal workbench state: the application and its layout view.
//!
//! Drawing and the event loop run in the program around the library; the
//! state they act on, and how each key changes it, live here.

pub mod app;
pub mod layout_view;
pub mod render;

pub use app::{App, Key};
pub use layout_view::LayoutViewState;
