//! Keyboard shortcuts of the file list: which key bindings are listened to
//! in which state, and what each one that was pressed asks for.
//!
//! The window reports the bindings that were pressed, in the order in which
//! they are checked; it asks only about those [`listens_to`] admits, so that
//! the others stay with the text fields.

use vstd::prelude::*;

verus! {

/// A key binding of the file list.
#[derive(Debug, Clone, Copy, PartialEq, Eq, Structural)]
pub enum Shortcut {
    Escape,
    Enter,
    /// Delete, with or without Shift (`shifted` when Shift+Delete was one
    /// of the presses).
    Delete { shifted: bool },
    CtrlL,
    CtrlF,
    CtrlT,
    CtrlW,
    CtrlA,
    CtrlI,
    CtrlShiftC,
    CtrlC,
    CtrlX,
    CtrlV,
    CtrlShiftN,
    F2,
    F5,
    F10,
    CtrlH,
    CtrlP,
    AltUp,
    AltLeft,
    AltRight,
    AltHome,
    Down,
    Up,
    PageDown,
    PageUp,
    Home,
    End,
    Backspace,
}

/// What the window does for a shortcut.
#[derive(Debug, Clone, Copy, PartialEq, Eq, Structural)]
pub enum Action {
    CancelDialog,
    ConfirmRename,
    ConfirmNewFolder,
    Delete { permanent: bool },
    FocusAddress,
    FocusSearch,
    NewTab,
    CloseTab,
    SelectAll,
    InvertSelection,
    CopyPath,
    Copy,
    Cut,
    Paste,
    NewFolder,
    Rename,
    Refresh,
    ToggleDualPane,
    ToggleHidden,
    TogglePreview,
    GoUp,
    GoBack,
    GoForward,
    GoHome,
    OpenPrimary,
    /// Escape outside dialogs (see [`escape_action`]).
    Escape,
    /// Move the focus by this many rows, extending the selection when Shift
    /// is held.
    MoveFocus { delta: isize, extend: bool },
    FocusFirst { extend: bool },
    FocusLast { extend: bool },
    /// Backspace: up one level, unless a type-ahead search is under way
    /// when it comes to be carried out.
    Backspace,
}

/// The state the shortcuts depend on.
#[derive(Debug, Clone, Copy, PartialEq, Eq, Structural)]
pub struct KeyContext {
    pub renaming: bool,
    pub new_folder_open: bool,
    pub confirm_delete_open: bool,
    /// A text field has the keyboard.
    pub typing: bool,
    /// Shift is held.
    pub shift_held: bool,
}

/// A dialog is open: only Escape and Enter are listened to.
pub open spec fn dialog_open(c: KeyContext) -> bool {
    c.renaming || c.new_folder_open || c.confirm_delete_open
}

/// Bindings listened to even while a text field has the keyboard.
pub open spec fn works_while_typing(k: Shortcut) -> bool {
    k is Delete || k == Shortcut::CtrlL || k == Shortcut::CtrlF || k == Shortcut::CtrlT || k
        == Shortcut::CtrlW
}

/// Whether binding `k` is listened to in state `c`: in a dialog Escape, and
/// Enter while renaming or naming a new folder; otherwise Delete and the
/// tab and focus bindings always, the rest only when no text field has the
/// keyboard.
pub open spec fn listens(k: Shortcut, c: KeyContext) -> bool {
    if dialog_open(c) {
        k == Shortcut::Escape || (k == Shortcut::Enter && (c.renaming || c.new_folder_open))
    } else {
        works_while_typing(k) || !c.typing
    }
}

/// What binding `k`, pressed and listened to in state `c`, asks for. In a
/// dialog Escape cancels it and Enter confirms the rename, else the new
/// folder. Delete deletes, permanently with Shift, and only permanently
/// while a text field has the keyboard (a plain Delete is the field's).
pub open spec fn key_action(k: Shortcut, c: KeyContext) -> Option<Action> {
    if dialog_open(c) {
        match k {
            Shortcut::Escape => Some(Action::CancelDialog),
            Shortcut::Enter => if c.renaming {
                Some(Action::ConfirmRename)
            } else if c.new_folder_open {
                Some(Action::ConfirmNewFolder)
            } else {
                None
            },
            _ => None,
        }
    } else {
        match k {
            Shortcut::Escape => Some(Action::Escape),
            Shortcut::Enter => Some(Action::OpenPrimary),
            Shortcut::Delete { shifted } => if !c.typing || shifted || c.shift_held {
                Some(Action::Delete { permanent: shifted || c.shift_held })
            } else {
                None
            },
            Shortcut::CtrlL => Some(Action::FocusAddress),
            Shortcut::CtrlF => Some(Action::FocusSearch),
            Shortcut::CtrlT => Some(Action::NewTab),
            Shortcut::CtrlW => Some(Action::CloseTab),
            Shortcut::CtrlA => Some(Action::SelectAll),
            Shortcut::CtrlI => Some(Action::InvertSelection),
            Shortcut::CtrlShiftC => Some(Action::CopyPath),
            Shortcut::CtrlC => Some(Action::Copy),
            Shortcut::CtrlX => Some(Action::Cut),
            Shortcut::CtrlV => Some(Action::Paste),
            Shortcut::CtrlShiftN => Some(Action::NewFolder),
            Shortcut::F2 => Some(Action::Rename),
            Shortcut::F5 => Some(Action::Refresh),
            Shortcut::F10 => Some(Action::ToggleDualPane),
            Shortcut::CtrlH => Some(Action::ToggleHidden),
            Shortcut::CtrlP => Some(Action::TogglePreview),
            Shortcut::AltUp => Some(Action::GoUp),
            Shortcut::AltLeft => Some(Action::GoBack),
            Shortcut::AltRight => Some(Action::GoForward),
            Shortcut::AltHome => Some(Action::GoHome),
            Shortcut::Down => Some(Action::MoveFocus { delta: 1isize, extend: c.shift_held }),
            Shortcut::Up => Some(Action::MoveFocus { delta: -1isize, extend: c.shift_held }),
            Shortcut::PageDown => Some(Action::MoveFocus { delta: 20isize, extend: c.shift_held }),
            Shortcut::PageUp => Some(Action::MoveFocus { delta: -20isize, extend: c.shift_held }),
            Shortcut::Home => Some(Action::FocusFirst { extend: c.shift_held }),
            Shortcut::End => Some(Action::FocusLast { extend: c.shift_held }),
            Shortcut::Backspace => Some(Action::Backspace),
        }
    }
}

/// The actions for the bindings pressed, in order: those listened to that
/// ask for something.
pub open spec fn actions_for(keys: Seq<Shortcut>, c: KeyContext) -> Seq<Action>
    decreases keys.len(),
{
    if keys.len() == 0 {
        seq![]
    } else {
        let rest = actions_for(keys.drop_last(), c);
        let k = keys.last();
        if listens(k, c) && key_action(k, c) is Some {
            rest.push(key_action(k, c)->0)
        } else {
            rest
        }
    }
}

/// Whether binding `k` is listened to in state `c` (see [`listens`]).
pub fn listens_to(k: Shortcut, c: KeyContext) -> (r: bool)
    ensures
        r == listens(k, c),
{
    if c.renaming || c.new_folder_open || c.confirm_delete_open {
        match k {
            Shortcut::Escape => true,
            Shortcut::Enter => c.renaming || c.new_folder_open,
            _ => false,
        }
    } else {
        match k {
            Shortcut::Delete { .. } | Shortcut::CtrlL | Shortcut::CtrlF | Shortcut::CtrlT
            | Shortcut::CtrlW => true,
            _ => !c.typing,
        }
    }
}

/// What binding `k` asks for in state `c` (see [`key_action`]).
pub fn action_of(k: Shortcut, c: KeyContext) -> (r: Option<Action>)
    ensures
        r == key_action(k, c),
{
    if c.renaming || c.new_folder_open || c.confirm_delete_open {
        return match k {
            Shortcut::Escape => Some(Action::CancelDialog),
            Shortcut::Enter => if c.renaming {
                Some(Action::ConfirmRename)
            } else if c.new_folder_open {
                Some(Action::ConfirmNewFolder)
            } else {
                None
            },
            _ => None,
        };
    }
    let extend = c.shift_held;
    match k {
        Shortcut::Escape => Some(Action::Escape),
        Shortcut::Enter => Some(Action::OpenPrimary),
        Shortcut::Delete { shifted } => {
            let permanent = shifted || c.shift_held;
            if !c.typing || permanent {
                Some(Action::Delete { permanent })
            } else {
                None
            }
        },
        Shortcut::CtrlL => Some(Action::FocusAddress),
        Shortcut::CtrlF => Some(Action::FocusSearch),
        Shortcut::CtrlT => Some(Action::NewTab),
        Shortcut::CtrlW => Some(Action::CloseTab),
        Shortcut::CtrlA => Some(Action::SelectAll),
        Shortcut::CtrlI => Some(Action::InvertSelection),
        Shortcut::CtrlShiftC => Some(Action::CopyPath),
        Shortcut::CtrlC => Some(Action::Copy),
        Shortcut::CtrlX => Some(Action::Cut),
        Shortcut::CtrlV => Some(Action::Paste),
        Shortcut::CtrlShiftN => Some(Action::NewFolder),
        Shortcut::F2 => Some(Action::Rename),
        Shortcut::F5 => Some(Action::Refresh),
        Shortcut::F10 => Some(Action::ToggleDualPane),
        Shortcut::CtrlH => Some(Action::ToggleHidden),
        Shortcut::CtrlP => Some(Action::TogglePreview),
        Shortcut::AltUp => Some(Action::GoUp),
        Shortcut::AltLeft => Some(Action::GoBack),
        Shortcut::AltRight => Some(Action::GoForward),
        Shortcut::AltHome => Some(Action::GoHome),
        Shortcut::Down => Some(Action::MoveFocus { delta: 1, extend }),
        Shortcut::Up => Some(Action::MoveFocus { delta: -1, extend }),
        Shortcut::PageDown => Some(Action::MoveFocus { delta: 20, extend }),
        Shortcut::PageUp => Some(Action::MoveFocus { delta: -20, extend }),
        Shortcut::Home => Some(Action::FocusFirst { extend }),
        Shortcut::End => Some(Action::FocusLast { extend }),
        Shortcut::Backspace => Some(Action::Backspace),
    }
}

/// The actions for the bindings pressed, in order (see [`actions_for`]).
pub fn shortcut_actions(keys: &[Shortcut], c: KeyContext) -> (r: Vec<Action>)
    ensures
        r@ == actions_for(keys@, c),
{
    let mut out: Vec<Action> = Vec::new();
    let mut i: usize = 0;
    while i < keys.len()
        invariant
            i <= keys@.len(),
            out@ == actions_for(keys@.take(i as int), c),
        decreases keys@.len() - i,
    {
        proof {
            assert(keys@.take(i + 1).drop_last() == keys@.take(i as int));
            assert(keys@.take(i + 1).last() == keys@[i as int]);
        }
        if listens_to(keys[i], c) {
            match action_of(keys[i], c) {
                Some(a) => out.push(a),
                None => {},
            }
        }
        i = i + 1;
    }
    proof {
        assert(keys@.take(keys@.len() as int) == keys@);
    }
    out
}

/// What Escape clears outside dialogs.
#[derive(Debug, Clone, Copy, PartialEq, Eq, Structural)]
pub enum EscapeAction {
    ClearTypeahead,
    ClearSelection,
    ClearSearch,
}

/// Escape outside dialogs clears the type-ahead search when one is under
/// way, else the selection when there is one, else the search results and
/// query.
pub fn escape_action(typeahead_empty: bool, selection_empty: bool) -> (r: EscapeAction)
    ensures
        r == if !typeahead_empty {
            EscapeAction::ClearTypeahead
        } else if !selection_empty {
            EscapeAction::ClearSelection
        } else {
            EscapeAction::ClearSearch
        },
{
    if !typeahead_empty {
        EscapeAction::ClearTypeahead
    } else if !selection_empty {
        EscapeAction::ClearSelection
    } else {
        EscapeAction::ClearSearch
    }
}

/// In a dialog, nothing but Escape and Enter does anything, and Enter only
/// confirms it.
pub proof fn dialogs_take_only_escape_and_enter(keys: Seq<Shortcut>, c: KeyContext)
    requires
        dialog_open(c),
    ensures
        forall|i: int|
            0 <= i < actions_for(keys, c).len() ==> {
                let a = #[trigger] actions_for(keys, c)[i];
                a == Action::CancelDialog || a == Action::ConfirmRename || a == Action::ConfirmNewFolder
            },
    decreases keys.len(),
{
    if keys.len() > 0 {
        dialogs_take_only_escape_and_enter(keys.drop_last(), c);
    }
}

/// While a text field has the keyboard, a plain Delete never deletes:
/// every delete asked for then is permanent, by Shift.
pub proof fn typing_deletes_only_permanently(keys: Seq<Shortcut>, c: KeyContext)
    requires
        c.typing,
    ensures
        forall|i: int|
            0 <= i < actions_for(keys, c).len() ==> (#[trigger] actions_for(keys, c)[i] matches Action::Delete {
                permanent,
            } ==> permanent),
    decreases keys.len(),
{
    if keys.len() > 0 {
        typing_deletes_only_permanently(keys.drop_last(), c);
    }
}

} // verus!
