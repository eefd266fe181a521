//! The script that hands a playback command to the YouTube Music page.
use vstd::prelude::*;

use crate::text::concat_str;

verus! {

/// The label of the main YouTube Music window.
pub const MAIN_WINDOW_LABEL: &'static str = "main";

/// The script text before the serialized command.
pub const COMMAND_SCRIPT_HEAD: &'static str = "\n        (() => {\n            const api = window.__YTMDESKTOP__;\n\n            if (!api) {\n                console.error(\n                    \"[YTMusic Desktop] playback adapter is not available\"\n                );\n                return;\n            }\n\n            Promise.resolve(\n                api.executeNativeCommand(";

/// The script text after the serialized command.
pub const COMMAND_SCRIPT_TAIL: &'static str = ")\n            ).catch((error) => {\n                console.error(\n                    \"[YTMusic Desktop] native player command failed:\",\n                    error\n                );\n            });\n        })();\n        ";

/// The script that passes the serialized command `payload` to the page's
/// playback adapter, reporting on the page's console when the adapter is
/// missing or the command fails.
pub fn native_command_script(payload: &str) -> (r: String)
    ensures
        r@ == COMMAND_SCRIPT_HEAD@ + payload@ + COMMAND_SCRIPT_TAIL@,
{
    let mut script = concat_str(COMMAND_SCRIPT_HEAD, payload);
    script.append(COMMAND_SCRIPT_TAIL);
    script
}

} // verus!
