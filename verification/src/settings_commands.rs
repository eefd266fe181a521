//! Guards and messages of the commands that the Settings window invokes.
use vstd::prelude::*;

use crate::localization::same_text;

verus! {

/// The label of the local Settings window.
pub const SETTINGS_WINDOW_LABEL: &'static str = "settings";

/// Only the Settings window may read or change settings.
pub fn ensure_settings_window_label(label: &str) -> (r: Result<(), String>)
    ensures
        r is Ok <==> label@ == SETTINGS_WINDOW_LABEL@,
        r matches Err(e) ==> e@ == "settings commands are only available to the local Settings window"@,
{
    if same_text(label, SETTINGS_WINDOW_LABEL) {
        Ok(())
    } else {
        Err(String::from_str("settings commands are only available to the local Settings window"))
    }
}

/// The error of a failed settings change, with the failure to restore the
/// previous runtime state appended when that failed too.
pub fn with_runtime_rollback(primary: String, rollback: Result<(), String>) -> (r: String)
    ensures
        match rollback {
            Ok(()) => r@ == primary@,
            Err(e) => r@ == primary@ + "; restoring the previous runtime settings failed: "@ + e@,
        },
{
    match rollback {
        Ok(()) => primary,
        Err(rollback_error) => {
            let mut message = primary;
            message.append("; restoring the previous runtime settings failed: ");
            message.append(rollback_error.as_str());
            message
        },
    }
}

} // verus!
