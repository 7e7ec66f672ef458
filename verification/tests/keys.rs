use rdom_tui::autofocus::is_focusable;
use rdom_tui::dom::{Dom, NodeId};
use rdom_tui::events::Modifiers;
use rdom_tui::input::{accepts_typing, seed_all, set_value, value};
use rdom_tui::path::{node_by_id, node_by_id_mut};
use rdom_tui::keys::{
    clipboard_action, edit_action, focus_move, history_action, is_quit, is_release, opens_context_menu, ClipboardAction,
    EditAction, FocusMove, HistoryAction, KeyCode, KeyInput, KeyKind,
};

fn k(code: KeyCode, shift: bool, ctrl: bool, alt: bool, meta: bool) -> KeyInput {
    KeyInput { code, modifiers: Modifiers { shift, ctrl, alt, meta }, kind: KeyKind::Press }
}

fn plain(code: KeyCode) -> KeyInput {
    k(code, false, false, false, false)
}

fn ctrl(code: KeyCode) -> KeyInput {
    k(code, false, true, false, false)
}

#[test]
fn clipboard_shortcuts_with_ctrl_or_cmd() {
    assert_eq!(clipboard_action(&ctrl(KeyCode::Char('c'))), Some(ClipboardAction::Copy));
    assert_eq!(clipboard_action(&ctrl(KeyCode::Char('X'))), Some(ClipboardAction::Cut));
    assert_eq!(clipboard_action(&k(KeyCode::Char('v'), false, false, false, true)), Some(ClipboardAction::Paste));
    assert_eq!(clipboard_action(&plain(KeyCode::Char('c'))), None);
    assert_eq!(clipboard_action(&ctrl(KeyCode::Char('a'))), None);
}

#[test]
fn ctrl_c_quits_when_nothing_claims_it() {
    assert!(is_quit(&ctrl(KeyCode::Char('c'))));
    assert!(!is_quit(&ctrl(KeyCode::Char('C'))));
    assert!(!is_quit(&plain(KeyCode::Char('c'))));
}

#[test]
fn shift_f10_opens_the_context_menu() {
    assert!(opens_context_menu(&k(KeyCode::F(10), true, false, false, false)));
    assert!(!opens_context_menu(&plain(KeyCode::F(10))));
}

#[test]
fn release_only_fires_keyup() {
    let mut r = plain(KeyCode::Enter);
    r.kind = KeyKind::Release;
    assert!(is_release(&r));
    assert!(!is_release(&plain(KeyCode::Enter)));
}

#[test]
fn tab_moves_focus() {
    assert_eq!(focus_move(&plain(KeyCode::Tab)), Some(FocusMove::Next));
    assert_eq!(focus_move(&k(KeyCode::Tab, true, false, false, false)), Some(FocusMove::Prev));
    assert_eq!(focus_move(&plain(KeyCode::BackTab)), Some(FocusMove::Prev));
    assert_eq!(focus_move(&plain(KeyCode::Enter)), None);
}

#[test]
fn undo_and_redo_shortcuts() {
    assert_eq!(history_action(&ctrl(KeyCode::Char('z'))), Some(HistoryAction::Undo));
    assert_eq!(history_action(&k(KeyCode::Char('Z'), true, true, false, false)), Some(HistoryAction::Redo));
    assert_eq!(history_action(&ctrl(KeyCode::Char('y'))), Some(HistoryAction::Redo));
    assert_eq!(history_action(&plain(KeyCode::Char('z'))), None);
}

#[test]
fn editable_keys() {
    assert_eq!(edit_action(&plain(KeyCode::Enter), true), EditAction::Consume);
    assert_eq!(edit_action(&plain(KeyCode::Enter), false), EditAction::InsertNewline);
    assert_eq!(edit_action(&plain(KeyCode::Char('x')), false), EditAction::InsertChar('x'));
    assert_eq!(edit_action(&k(KeyCode::Char('X'), true, false, false, false), false), EditAction::InsertChar('X'));
    assert_eq!(edit_action(&ctrl(KeyCode::Char('x')), false), EditAction::Pass);
    assert_eq!(edit_action(&plain(KeyCode::Char('\u{7}')), false), EditAction::Pass);
    assert_eq!(edit_action(&ctrl(KeyCode::Enter), false), EditAction::Pass);
    assert_eq!(edit_action(&plain(KeyCode::Tab), false), EditAction::Pass);
}

fn release(code: KeyCode) -> KeyInput {
    KeyInput { code, modifiers: Modifiers::none(), kind: KeyKind::Release }
}

#[test]
fn ctrl_c_sets_should_quit() {
    assert!(is_quit(&ctrl(KeyCode::Char('c'))));
}

#[test]
fn ctrl_c_without_selection_still_quits() {
    // No selection claims the copy, so the key falls through to the exit.
    assert_eq!(clipboard_action(&ctrl(KeyCode::Char('c'))), Some(ClipboardAction::Copy));
    assert!(is_quit(&ctrl(KeyCode::Char('c'))));
}

#[test]
fn ctrl_c_with_collapsed_caret_still_quits() {
    assert!(is_quit(&ctrl(KeyCode::Char('c'))));
}

#[test]
fn cmd_c_also_copies_via_super_modifier() {
    let cmd_c = k(KeyCode::Char('c'), false, false, false, true);
    assert_eq!(clipboard_action(&cmd_c), Some(ClipboardAction::Copy));
    assert!(!is_quit(&cmd_c));
}

#[test]
fn key_release_does_not_run_default_actions() {
    let tab_up = release(KeyCode::Tab);
    assert!(is_release(&tab_up), "a release only fires keyup");
    assert!(!is_release(&plain(KeyCode::Tab)));
}

#[test]
fn shift_f10_dispatches_contextmenu_on_focused_element() {
    assert!(opens_context_menu(&k(KeyCode::F(10), true, false, false, false)));
}

#[test]
fn enter_on_input_does_not_insert_newline() {
    assert_eq!(edit_action(&plain(KeyCode::Enter), true), EditAction::Consume);
}

#[test]
fn ctrl_enter_on_textarea_does_not_insert_newline() {
    assert_eq!(edit_action(&ctrl(KeyCode::Enter), false), EditAction::Pass);
    assert_eq!(edit_action(&plain(KeyCode::Enter), false), EditAction::InsertNewline);
}

/// Characters typed at the end of the focused control, as the editing
/// defaults run them.
fn type_chars(dom: &mut Dom, id: NodeId, chars: &[char]) {
    for &c in chars {
        let single_line = true;
        if let EditAction::InsertChar(ch) = edit_action(&plain(KeyCode::Char(c)), single_line) {
            let text = ch.to_string();
            let n = node_by_id(&dom.root, id).unwrap();
            if accepts_typing(n, &text) {
                let next = format!("{}{}", value(n), text);
                set_value(dom, id, &next);
            }
        }
    }
}

fn input_app(initial: &str) -> (Dom, NodeId) {
    let mut dom = Dom::new();
    let mut input = dom.create_element("input");
    input.set_attribute("value", initial);
    let id = input.id;
    dom.root.append_child(input);
    seed_all(&mut dom);
    dom.focused = Some(id);
    (dom, id)
}

#[test]
fn typing_in_input_mirrors_value_attribute_per_keystroke() {
    let (mut dom, input) = input_app("");
    type_chars(&mut dom, input, &['h', 'i']);
    assert_eq!(node_by_id(&dom.root, input).unwrap().get_attribute("value").map(|s| s.as_str()), Some("hi"));
}

#[test]
fn typing_in_readonly_input_does_not_change_value() {
    let (mut dom, input) = input_app("hi");
    node_by_id_mut(&mut dom.root, input).unwrap().set_attribute("readonly", "");
    type_chars(&mut dom, input, &['!']);
    let n = node_by_id(&dom.root, input).unwrap();
    assert_eq!(value(n), "hi");
    assert_eq!(n.get_attribute("value").map(|s| s.as_str()), Some("hi"));
}

#[test]
fn canvas_with_tabindex_is_focusable_programmatically() {
    let mut dom = Dom::new();
    let mut cv = dom.create_element("canvas");
    cv.set_attribute("tabindex", "0");
    let id = cv.id;
    dom.root.append_child(cv);
    assert!(is_focusable(node_by_id(&dom.root, id).unwrap()));
    dom.focused = Some(id);
    assert_eq!(dom.focused, Some(id));
}
