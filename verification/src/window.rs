//! What closing the main window does.
use vstd::prelude::*;

verus! {

/// The response to the main window's native close button.
#[derive(Debug, Clone, Copy, PartialEq, Eq, Structural)]
pub enum MainCloseBehavior {
    HideToTray,
    Exit,
}

/// Hiding keeps the playback WebView alive; otherwise the application exits.
pub fn main_close_behavior(close_to_tray: bool) -> (r: MainCloseBehavior)
    ensures
        r == (if close_to_tray {
            MainCloseBehavior::HideToTray
        } else {
            MainCloseBehavior::Exit
        }),
{
    if close_to_tray {
        MainCloseBehavior::HideToTray
    } else {
        MainCloseBehavior::Exit
    }
}

} // verus!
