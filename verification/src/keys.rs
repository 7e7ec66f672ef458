//! The runtime's own keyboard decisions, over a key as the terminal
//! reports it: clipboard shortcuts (Ctrl / Cmd + C, X, V), the Ctrl-C
//! exit, Shift+F10 `contextmenu`, undo / redo, Tab focus navigation,
//! and what a key does inside an editable (Enter, character insert).

use vstd::prelude::*;
use crate::events::Modifiers;
use crate::select::keyboard::is_control;

verus! {

/// A terminal key.
#[derive(Clone, Copy, Debug, PartialEq, Eq, Structural)]
pub enum KeyCode {
    Char(char),
    Enter,
    Tab,
    BackTab,
    Backspace,
    Delete,
    Left,
    Right,
    Up,
    Down,
    Home,
    End,
    PageUp,
    PageDown,
    Esc,
    F(u8),
    Other,
}

/// Press, auto-repeat or release.
#[derive(Clone, Copy, Debug, PartialEq, Eq, Structural)]
pub enum KeyKind {
    Press,
    Repeat,
    Release,
}

/// A key event from the terminal (`meta` is Super / Cmd).
#[derive(Clone, Copy, Debug, PartialEq, Eq, Structural)]
pub struct KeyInput {
    pub code: KeyCode,
    pub modifiers: Modifiers,
    pub kind: KeyKind,
}

/// A clipboard shortcut.
#[derive(Clone, Copy, Debug, PartialEq, Eq, Structural)]
pub enum ClipboardAction {
    Copy,
    Cut,
    Paste,
}

/// The clipboard shortcut `key` is: Ctrl or Cmd with C (copy), X (cut)
/// or V (paste), in either case.
pub open spec fn clipboard_spec(key: KeyInput) -> Option<ClipboardAction> {
    if !(key.modifiers.ctrl || key.modifiers.meta) {
        None
    } else {
        match key.code {
            KeyCode::Char(c) => if c == 'c' || c == 'C' {
                Some(ClipboardAction::Copy)
            } else if c == 'x' || c == 'X' {
                Some(ClipboardAction::Cut)
            } else if c == 'v' || c == 'V' {
                Some(ClipboardAction::Paste)
            } else {
                None
            },
            _ => None,
        }
    }
}

/// The clipboard shortcut `key` is, if any. Copy and cut claim the key
/// only when there is a selection; paste always does.
pub fn clipboard_action(key: &KeyInput) -> (r: Option<ClipboardAction>)
    ensures
        r == clipboard_spec(*key),
{
    if !(key.modifiers.ctrl || key.modifiers.meta) {
        return None;
    }
    match key.code {
        KeyCode::Char(c) => if c == 'c' || c == 'C' {
            Some(ClipboardAction::Copy)
        } else if c == 'x' || c == 'X' {
            Some(ClipboardAction::Cut)
        } else if c == 'v' || c == 'V' {
            Some(ClipboardAction::Paste)
        } else {
            None
        },
        _ => None,
    }
}

/// Whether `key` is the runtime's exit: Ctrl + lowercase `c` (reached
/// only when no copy claimed it).
pub fn is_quit(key: &KeyInput) -> (r: bool)
    ensures
        r == (key.code == KeyCode::Char('c') && key.modifiers.ctrl),
{
    key.code == KeyCode::Char('c') && key.modifiers.ctrl
}

/// Whether `key` asks for a `contextmenu` on the focus: Shift+F10.
pub fn opens_context_menu(key: &KeyInput) -> (r: bool)
    ensures
        r == (key.code == KeyCode::F(10) && key.modifiers.shift),
{
    key.code == KeyCode::F(10) && key.modifiers.shift
}

/// Whether `key` is a release (it fires `keyup` and nothing else).
pub fn is_release(key: &KeyInput) -> (r: bool)
    ensures
        r == (key.kind == KeyKind::Release),
{
    key.kind == KeyKind::Release
}

/// A focus move.
#[derive(Clone, Copy, Debug, PartialEq, Eq, Structural)]
pub enum FocusMove {
    Next,
    Prev,
}

/// The focus move `key` asks for: Tab forward, Shift+Tab or BackTab
/// backward.
pub open spec fn focus_move_spec(key: KeyInput) -> Option<FocusMove> {
    match key.code {
        KeyCode::Tab => if key.modifiers.shift {
            Some(FocusMove::Prev)
        } else {
            Some(FocusMove::Next)
        },
        KeyCode::BackTab => Some(FocusMove::Prev),
        _ => None,
    }
}

/// The focus move `key` asks for, if any.
pub fn focus_move(key: &KeyInput) -> (r: Option<FocusMove>)
    ensures
        r == focus_move_spec(*key),
{
    match key.code {
        KeyCode::Tab => if key.modifiers.shift {
            Some(FocusMove::Prev)
        } else {
            Some(FocusMove::Next)
        },
        KeyCode::BackTab => Some(FocusMove::Prev),
        _ => None,
    }
}

/// Undo or redo.
#[derive(Clone, Copy, Debug, PartialEq, Eq, Structural)]
pub enum HistoryAction {
    Undo,
    Redo,
}

/// The history shortcut `key` is: with Ctrl or Cmd, Z undoes, Shift+Z
/// or Y redoes.
pub open spec fn history_spec(key: KeyInput) -> Option<HistoryAction> {
    if !(key.modifiers.ctrl || key.modifiers.meta) {
        None
    } else {
        match key.code {
            KeyCode::Char(c) => if (c == 'z' || c == 'Z') && !key.modifiers.shift {
                Some(HistoryAction::Undo)
            } else if c == 'y' || c == 'Y' || c == 'z' || c == 'Z' {
                Some(HistoryAction::Redo)
            } else {
                None
            },
            _ => None,
        }
    }
}

/// The history shortcut `key` is, if any.
pub fn history_action(key: &KeyInput) -> (r: Option<HistoryAction>)
    ensures
        r == history_spec(*key),
{
    if !(key.modifiers.ctrl || key.modifiers.meta) {
        return None;
    }
    match key.code {
        KeyCode::Char(c) => if (c == 'z' || c == 'Z') && !key.modifiers.shift {
            Some(HistoryAction::Undo)
        } else if c == 'y' || c == 'Y' || c == 'z' || c == 'Z' {
            Some(HistoryAction::Redo)
        } else {
            None
        },
        _ => None,
    }
}

/// What a key (not a history or movement key) does in a focused
/// editable.
#[derive(Clone, Copy, Debug, PartialEq, Eq, Structural)]
pub enum EditAction {
    /// Claimed, nothing inserted (Enter in a single-line input).
    Consume,
    /// Insert a line break.
    InsertNewline,
    /// Insert the character.
    InsertChar(char),
    /// Not the editable's key.
    Pass,
}

/// Enter without Ctrl / Cmd / Alt: claimed by a single-line `<input>`,
/// a line break elsewhere. Other Ctrl / Cmd combinations pass; a
/// non-control character is inserted.
pub open spec fn edit_action_spec(key: KeyInput, single_line: bool) -> EditAction {
    if key.code == KeyCode::Enter && !key.modifiers.ctrl && !key.modifiers.meta && !key.modifiers.alt {
        if single_line {
            EditAction::Consume
        } else {
            EditAction::InsertNewline
        }
    } else if key.modifiers.ctrl || key.modifiers.meta {
        EditAction::Pass
    } else {
        match key.code {
            KeyCode::Char(c) => if is_control(c) {
                EditAction::Pass
            } else {
                EditAction::InsertChar(c)
            },
            _ => EditAction::Pass,
        }
    }
}

/// What `key` does in a focused editable; `single_line` when the
/// editable is an `<input>`.
pub fn edit_action(key: &KeyInput, single_line: bool) -> (r: EditAction)
    ensures
        r == edit_action_spec(*key, single_line),
{
    if key.code == KeyCode::Enter && !key.modifiers.ctrl && !key.modifiers.meta && !key.modifiers.alt {
        if single_line {
            return EditAction::Consume;
        }
        return EditAction::InsertNewline;
    }
    if key.modifiers.ctrl || key.modifiers.meta {
        return EditAction::Pass;
    }
    match key.code {
        KeyCode::Char(c) => if c <= '\u{1F}' || ('\u{7F}' <= c && c <= '\u{9F}') {
            EditAction::Pass
        } else {
            EditAction::InsertChar(c)
        },
        _ => EditAction::Pass,
    }
}

} // verus!
