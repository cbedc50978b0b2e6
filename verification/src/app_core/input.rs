//! Runtime-agnostic input event types: every runtime converts its own
//! keyboard and mouse events into these before calling the reducer.
use vstd::prelude::*;

verus! {

/// Key codes the application reacts to.
#[derive(Debug, Clone, Copy, PartialEq, Eq, Structural)]
pub enum AppKeyCode {
    Char(char),
    Up,
    Down,
    Left,
    Right,
    Tab,
    BackTab,
    Enter,
    Esc,
    Delete,
    Home,
    End,
    PageUp,
    PageDown,
    Backspace,
}

/// A keyboard event.
#[derive(Debug, Clone, Copy)]
pub struct AppKeyEvent {
    pub code: AppKeyCode,
    pub ctrl: bool,
    pub alt: bool,
    pub shift: bool,
    /// `true` when the key was released (the reducer ignores such events).
    pub is_release: bool,
}

impl AppKeyEvent {
    /// A key press without modifiers.
    pub fn new(code: AppKeyCode) -> (e: AppKeyEvent)
        ensures
            e.code == code,
            !e.ctrl,
            !e.alt,
            !e.shift,
            !e.is_release,
    {
        AppKeyEvent { code, ctrl: false, alt: false, shift: false, is_release: false }
    }
}

/// The kind of a mouse event.
#[derive(Debug, Clone, Copy, PartialEq, Eq, Structural)]
pub enum AppMouseKind {
    Move,
    LeftDown,
    ScrollUp,
    ScrollDown,
}

/// A mouse event in terminal cell coordinates (the runtime converts pixels
/// to cells before handing the event over).
#[derive(Debug, Clone, Copy)]
pub struct AppMouseEvent {
    pub kind: AppMouseKind,
    /// Column in terminal cells.
    pub column: u16,
    /// Row in terminal cells.
    pub row: u16,
    pub ctrl: bool,
}

} // verus!
