//! When the window is shown and hidden.

use vstd::prelude::*;

use crate::text::{lists_text, same_text, strings};

verus! {

/// What an entry of the menu does.
#[derive(Debug, Clone, Copy, PartialEq, Eq, Structural)]
pub enum MenuAction {
    Show,
    Refresh,
    Quit,
    Nothing,
}

/// What the entry of the menu with an identifier does.
pub open spec fn action_of(id: Seq<char>) -> MenuAction {
    if id == "show"@ {
        MenuAction::Show
    } else if id == "refresh"@ {
        MenuAction::Refresh
    } else if id == "quit"@ {
        MenuAction::Quit
    } else {
        MenuAction::Nothing
    }
}

/// What the entry of the menu with an identifier does.
pub fn menu_action(id: &str) -> (r: MenuAction)
    ensures
        r == action_of(id@),
{
    if same_text(id, "show") {
        MenuAction::Show
    } else if same_text(id, "refresh") {
        MenuAction::Refresh
    } else if same_text(id, "quit") {
        MenuAction::Quit
    } else {
        MenuAction::Nothing
    }
}

/// Whether a window is hidden as the focus comes or goes: only the main window, once it has lost
/// the focus, unless hiding is suspended or the pointer is over the icon, whose click decides then.
pub fn hides_on_focus_change(
    label: &str,
    focused: bool,
    suspended: bool,
    pointer_over_tray: bool,
) -> (r: bool)
    ensures
        r == (label@ == "main"@ && !focused && !suspended && !pointer_over_tray),
{
    same_text(label, "main") && !focused && !suspended && !pointer_over_tray
}

/// Whether the window is shown as the application starts: unless one of its arguments asks for
/// the contrary.
pub fn shows_at_start(arguments: &[String]) -> (r: bool)
    ensures
        r == !strings(arguments@).contains("--minimized"@),
{
    !lists_text(arguments, "--minimized")
}

} // verus!
