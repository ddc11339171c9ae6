//! The application state and how keys change it.

use vstd::prelude::*;

use super::layout_view::{
    after_field_toggle, after_global_toggle, next_bit_cursor, next_field_cursor, prev_bit_cursor,
    prev_field_cursor, LayoutViewState, ViewSpec,
};

verus! {

/// A key press, as the application tells keys apart.
#[derive(Debug, Clone, Copy, PartialEq, Eq)]
pub enum Key {
    /// A character key.
    Char(char),
    Up,
    Down,
    Left,
    Right,
    Enter,
    /// Any other key.
    Other,
}

/// The key stops the application: `q` or `Q`, or `c`/`C` with Control.
pub open spec fn quits(key: Key, ctrl: bool) -> bool {
    key == Key::Char('q') || key == Key::Char('Q') || (ctrl && (key == Key::Char('c') || key
        == Key::Char('C')))
}

/// What a key that does not quit does to the layout view: the arrows move
/// between fields, `h` and `l` between bits of a field, `f` cycles the
/// field's format and `F` the global one; other keys change nothing.
pub open spec fn view_after_key(v: ViewSpec, key: Key) -> ViewSpec {
    if key == Key::Down {
        ViewSpec { cursor_bit: next_field_cursor(v), ..v }
    } else if key == Key::Up {
        ViewSpec { cursor_bit: prev_field_cursor(v), ..v }
    } else if key == Key::Char('l') {
        ViewSpec { cursor_bit: next_bit_cursor(v), ..v }
    } else if key == Key::Char('h') {
        ViewSpec { cursor_bit: prev_bit_cursor(v), ..v }
    } else if key == Key::Char('f') {
        after_field_toggle(v)
    } else if key == Key::Char('F') {
        after_global_toggle(v)
    } else {
        v
    }
}

/// The workbench application: whether it runs, and the layout it shows.
pub struct App {
    running: bool,
    layout_view: Option<LayoutViewState>,
}

impl App {
    /// Whether the application keeps running.
    pub closed spec fn spec_running(self) -> bool {
        self.running
    }

    /// The layout view shown, if any.
    pub closed spec fn spec_view(self) -> Option<LayoutViewState> {
        self.layout_view
    }

    /// Creates a running application without a layout.
    pub fn new() -> (r: Self)
        ensures
            r.spec_running(),
            r.spec_view() is None,
    {
        App { running: true, layout_view: None }
    }

    /// Returns `true` while the application runs.
    pub fn is_running(&self) -> (r: bool)
        ensures
            r == self.spec_running(),
    {
        self.running
    }

    /// Stops the application.
    pub fn quit(&mut self)
        ensures
            !final(self).spec_running(),
            final(self).spec_view() == old(self).spec_view(),
    {
        self.running = false;
    }

    /// The layout view shown, if any.
    pub fn layout_view(&self) -> (r: Option<&LayoutViewState>)
        ensures
            match self.spec_view() {
                Some(v) => r == Some(&v),
                None => r is None,
            },
    {
        self.layout_view.as_ref()
    }

    /// The layout view shown, if any, to change it.
    pub fn layout_view_mut(&mut self) -> (r: Option<&mut LayoutViewState>)
        ensures
            final(self).spec_running() == old(self).spec_running(),
            match old(self).spec_view() {
                None => r is None && final(self).spec_view() is None,
                Some(v) => r is Some && *r.unwrap() == v && final(self).spec_view() == Some(
                    *final(r.unwrap()),
                ),
            },
    {
        self.layout_view.as_mut()
    }

    /// Handles a key press; `ctrl` tells whether Control was held.
    pub fn handle_key(&mut self, key: Key, ctrl: bool)
        ensures
            final(self).spec_running() == (old(self).spec_running() && !quits(key, ctrl)),
            quits(key, ctrl) ==> final(self).spec_view() == old(self).spec_view(),
            !quits(key, ctrl) ==> match old(self).spec_view() {
                None => final(self).spec_view() is None,
                Some(v) => final(self).spec_view() matches Some(w) && w@ == view_after_key(v@, key)
                    && w.registry() == v.registry(),
            },
    {
        let quit = match key {
            Key::Char('q') | Key::Char('Q') => true,
            Key::Char('c') | Key::Char('C') => ctrl,
            _ => false,
        };
        if quit {
            self.quit();
            return;
        }
        if let Some(mut view) = self.layout_view.take() {
            match key {
                Key::Down => view.move_next_field(),
                Key::Up => view.move_prev_field(),
                Key::Char('l') => view.move_next_bit(),
                Key::Char('h') => view.move_prev_bit(),
                Key::Char('f') => view.toggle_selected_field_format(),
                Key::Char('F') => view.toggle_global_format(),
                _ => {},
            }
            self.layout_view = Some(view);
        }
    }

    /// Shows `view`.
    pub fn set_layout_view(&mut self, view: LayoutViewState)
        ensures
            final(self).spec_running() == old(self).spec_running(),
            final(self).spec_view() == Some(view),
    {
        self.layout_view = Some(view);
    }
}

impl Default for App {
    fn default() -> (r: Self)
        ensures
            r.spec_running(),
            r.spec_view() is None,
    {
        Self::new()
    }
}

} // verus!
