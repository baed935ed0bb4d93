//! Decisions of the application shell: deep links handed over by a second
//! instance, the tray menu, focus events and the settings shortcut.

use vstd::prelude::*;
use vstd::string::StringExecFns;
use crate::text::{str_chars, str_is};

verus! {

/// Scheme prefix of the app's deep links.
pub open spec fn deep_link_prefix() -> Seq<char> {
    "mezonapp://"@
}

/// Whether `s` begins with `prefix`.
pub open spec fn starts_with(s: Seq<char>, prefix: Seq<char>) -> bool {
    prefix.len() <= s.len() && s.take(prefix.len() as int) == prefix
}

/// Executable `starts_with` over strings.
pub fn str_starts_with(s: &str, prefix: &str) -> (b: bool)
    ensures
        b == starts_with(s@, prefix@),
{
    let a = str_chars(s);
    let p = str_chars(prefix);
    if p.len() > a.len() {
        return false;
    }
    let n = p.len();
    let mut i: usize = 0;
    while i < n
        invariant
            n == p@.len(),
            n <= a@.len(),
            a@ == s@,
            p@ == prefix@,
            i <= n,
            forall|j: int| 0 <= j < i ==> a@[j] == p@[j],
        decreases n - i,
    {
        if a[i] != p[i] {
            assert(a@.take(n as int)[i as int] == a@[i as int]);
            assert(a@.take(n as int) != p@);
            return false;
        }
        i = i + 1;
    }
    assert(a@.take(n as int) =~= p@);
    true
}

/// The deep link that a second launch passes on: its first argument, when there
/// is one and it starts with `mezonapp://`.
pub fn deep_link_from_args(argv: &Vec<String>) -> (r: Option<String>)
    ensures
        match r {
            Some(url) => argv@.len() > 1 && url == argv@[1] && starts_with(
                argv@[1]@,
                deep_link_prefix(),
            ),
            None => argv@.len() <= 1 || !starts_with(argv@[1]@, deep_link_prefix()),
        },
{
    if argv.len() > 1 {
        let url = &argv[1];
        if str_starts_with(url.as_str(), "mezonapp://") {
            return Some(url.clone());
        }
    }
    None
}

/// What an item of the tray menu does.
#[derive(Debug, Clone, Copy, PartialEq, Eq, Structural)]
pub enum TrayAction {
    Quit,
    Show,
    Hide,
    CheckUpdates,
    Nothing,
}

/// The action of the tray menu item with this id.
pub open spec fn spec_tray_action(id: Seq<char>) -> TrayAction {
    if id == "quit"@ {
        TrayAction::Quit
    } else if id == "show"@ {
        TrayAction::Show
    } else if id == "hide"@ {
        TrayAction::Hide
    } else if id == "check_updates"@ {
        TrayAction::CheckUpdates
    } else {
        TrayAction::Nothing
    }
}

/// Each tray item does one thing and only its own id asks for it: `quit` quits,
/// `show` shows, `hide` hides, `check_updates` checks for updates, and any other
/// id does nothing.
pub proof fn tray_items_do_their_own_action(id: Seq<char>)
    ensures
        (spec_tray_action(id) == TrayAction::Quit) == (id == "quit"@),
        (spec_tray_action(id) == TrayAction::Show) == (id == "show"@),
        (spec_tray_action(id) == TrayAction::Hide) == (id == "hide"@),
        (spec_tray_action(id) == TrayAction::CheckUpdates) == (id == "check_updates"@),
        (spec_tray_action(id) == TrayAction::Nothing) == (id != "quit"@ && id != "show"@ && id
            != "hide"@ && id != "check_updates"@),
{
    reveal_strlit("quit");
    reveal_strlit("show");
    reveal_strlit("hide");
    reveal_strlit("check_updates");
    assert("quit"@[0] != "show"@[0]);
    assert("quit"@[0] != "hide"@[0]);
    assert("quit"@[0] != "check_updates"@[0]);
    assert("show"@[0] != "hide"@[0]);
    assert("show"@[0] != "check_updates"@[0]);
    assert("hide"@[0] != "check_updates"@[0]);
}

/// Executable `spec_tray_action`.
pub fn tray_action(id: &str) -> (r: TrayAction)
    ensures
        r == spec_tray_action(id@),
{
    if str_is(id, "quit") {
        TrayAction::Quit
    } else if str_is(id, "show") {
        TrayAction::Show
    } else if str_is(id, "hide") {
        TrayAction::Hide
    } else if str_is(id, "check_updates") {
        TrayAction::CheckUpdates
    } else {
        TrayAction::Nothing
    }
}

/// Event sent to the front end when the main window gains or loses focus.
pub fn focus_event_name(focused: bool) -> (r: String)
    ensures
        r@ == (if focused {
            "window-focused"@
        } else {
            "window-blurred"@
        }),
{
    if focused {
        String::from_str("window-focused")
    } else {
        String::from_str("window-blurred")
    }
}

/// Accelerator of the settings shortcut: Cmd+, on macOS, Ctrl+, elsewhere.
pub fn settings_shortcut(is_macos: bool) -> (r: String)
    ensures
        r@ == (if is_macos {
            "cmd+,"@
        } else {
            "ctrl+,"@
        }),
{
    if is_macos {
        String::from_str("cmd+,")
    } else {
        String::from_str("ctrl+,")
    }
}

} // verus!
