use explorer_rs::shortcuts::{escape_action, listens_to, shortcut_actions, Action, EscapeAction, KeyContext, Shortcut};

fn ctx(renaming: bool, new_folder_open: bool, typing: bool, shift_held: bool) -> KeyContext {
    KeyContext { renaming, new_folder_open, confirm_delete_open: false, typing, shift_held }
}

#[test]
fn dialogs_listen_to_escape_and_enter_only() {
    let c = ctx(true, false, true, false);
    assert!(listens_to(Shortcut::Escape, c));
    assert!(listens_to(Shortcut::Enter, c));
    assert!(!listens_to(Shortcut::Delete { shifted: true }, c));
    assert!(!listens_to(Shortcut::CtrlA, c));
    let keys = [Shortcut::Enter, Shortcut::Escape];
    assert_eq!(shortcut_actions(&keys, c), vec![Action::ConfirmRename, Action::CancelDialog]);
    let confirm = KeyContext { confirm_delete_open: true, ..ctx(false, false, false, false) };
    assert!(!listens_to(Shortcut::Enter, confirm));
    assert_eq!(shortcut_actions(&keys, ctx(false, true, false, false)), vec![Action::ConfirmNewFolder, Action::CancelDialog]);
}

#[test]
fn delete_while_typing_is_permanent_only() {
    let typing = ctx(false, false, true, false);
    assert_eq!(shortcut_actions(&[Shortcut::Delete { shifted: false }], typing), vec![]);
    assert_eq!(
        shortcut_actions(&[Shortcut::Delete { shifted: true }], typing),
        vec![Action::Delete { permanent: true }]
    );
    let held = ctx(false, false, true, true);
    assert_eq!(
        shortcut_actions(&[Shortcut::Delete { shifted: false }], held),
        vec![Action::Delete { permanent: true }]
    );
    assert_eq!(
        shortcut_actions(&[Shortcut::Delete { shifted: false }], ctx(false, false, false, false)),
        vec![Action::Delete { permanent: false }]
    );
}

#[test]
fn typing_keeps_list_bindings_off() {
    let typing = ctx(false, false, true, false);
    assert!(listens_to(Shortcut::CtrlL, typing));
    assert!(listens_to(Shortcut::CtrlW, typing));
    assert!(!listens_to(Shortcut::CtrlA, typing));
    assert!(!listens_to(Shortcut::Backspace, typing));
    let keys = [Shortcut::CtrlT, Shortcut::CtrlA, Shortcut::Down];
    assert_eq!(shortcut_actions(&keys, typing), vec![Action::NewTab]);
}

#[test]
fn list_bindings_in_order() {
    let c = ctx(false, false, false, true);
    let keys = [Shortcut::CtrlShiftC, Shortcut::F10, Shortcut::PageUp, Shortcut::End, Shortcut::Backspace, Shortcut::Escape];
    assert_eq!(
        shortcut_actions(&keys, c),
        vec![
            Action::CopyPath,
            Action::ToggleDualPane,
            Action::MoveFocus { delta: -20, extend: true },
            Action::FocusLast { extend: true },
            Action::Backspace,
            Action::Escape,
        ]
    );
}

#[test]
fn escape_clears_in_turn() {
    assert_eq!(escape_action(false, false), EscapeAction::ClearTypeahead);
    assert_eq!(escape_action(true, false), EscapeAction::ClearSelection);
    assert_eq!(escape_action(true, true), EscapeAction::ClearSearch);
}
