//! The tray menu: what each item does.
use vstd::prelude::*;

use crate::text::string_of;

verus! {

/// What a tray menu item asks for.
#[derive(Debug, Clone, Copy, PartialEq, Eq, Structural)]
pub enum TrayAction {
    /// Show the main window.
    ShowMainWindow,
    /// Toggle the user pause (the picture freezes, wallpapers stay).
    TogglePause,
    /// Apply the last wallpaper again to every screen.
    StartWallpaper,
    /// Clear every wallpaper, back to the static desktop picture.
    StopWallpaper,
    /// Detach the wallpapers and quit.
    Quit,
}

/// The action of the tray menu item with the given id; `None` for an unknown id.
pub fn tray_action(id: &str) -> (r: Option<TrayAction>)
    ensures
        id@ == "show"@ ==> r == Some(TrayAction::ShowMainWindow),
        id@ == "pause"@ ==> r == Some(TrayAction::TogglePause),
        id@ == "start"@ ==> r == Some(TrayAction::StartWallpaper),
        id@ == "stop"@ ==> r == Some(TrayAction::StopWallpaper),
        id@ == "quit"@ ==> r == Some(TrayAction::Quit),
        id@ != "show"@ && id@ != "pause"@ && id@ != "start"@ && id@ != "stop"@ && id@ != "quit"@
            ==> r is None,
{
    proof {
        reveal_strlit("show");
        reveal_strlit("pause");
        reveal_strlit("start");
        reveal_strlit("stop");
        reveal_strlit("quit");
        assert("pause"@.len() != "show"@.len());
        assert("start"@ != "show"@ && "start"@[1] != "pause"@[1]);
        assert("stop"@[1] != "show"@[1] && "stop"@.len() != "pause"@.len() && "stop"@.len() != "start"@.len());
        assert("quit"@[0] != "show"@[0] && "quit"@.len() != "pause"@.len() && "quit"@.len() != "start"@.len() && "quit"@[0] != "stop"@[0]);
    }
    let s = string_of(id);
    if s == string_of("show") {
        Some(TrayAction::ShowMainWindow)
    } else if s == string_of("pause") {
        Some(TrayAction::TogglePause)
    } else if s == string_of("start") {
        Some(TrayAction::StartWallpaper)
    } else if s == string_of("stop") {
        Some(TrayAction::StopWallpaper)
    } else if s == string_of("quit") {
        Some(TrayAction::Quit)
    } else {
        None
    }
}

} // verus!
