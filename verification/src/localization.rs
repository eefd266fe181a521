//! Text of the native user interface (tray menu and window titles) in each
//! supported language, and the guard on the local language query.
use vstd::prelude::*;

use crate::settings::Language;

verus! {

/// The event that tells the Mini Player about a new interface language.
pub const LOCAL_UI_LANGUAGE_CHANGED_EVENT: &'static str = "local-ui-language-changed";

/// The label of the Mini Player window.
pub const MINI_PLAYER_WINDOW_LABEL: &'static str = "mini-player";

/// The labels of the tray menu and the titles of the local windows.
pub struct NativeUiStrings {
    pub open: &'static str,
    pub settings: &'static str,
    pub mini_player: &'static str,
    pub play_pause: &'static str,
    pub previous: &'static str,
    pub next: &'static str,
    pub quit: &'static str,
    pub settings_window_title: &'static str,
    pub mini_player_window_title: &'static str,
}

/// The interface text for `language`.
pub open spec fn localized_strings(language: Language) -> NativeUiStrings {
    match language {
        Language::English => NativeUiStrings {
            open: "Open YTMusic Desktop",
            settings: "Settings",
            mini_player: "Mini Player",
            play_pause: "Play / Pause",
            previous: "Previous",
            next: "Next",
            quit: "Quit",
            settings_window_title: "YTMusic Desktop Settings",
            mini_player_window_title: "YTMusic Desktop Mini Player",
        },
        Language::Turkish => NativeUiStrings {
            open: "YTMusic Desktop'i Aç",
            settings: "Ayarlar",
            mini_player: "Mini Oynatıcı",
            play_pause: "Oynat / Duraklat",
            previous: "Önceki",
            next: "Sonraki",
            quit: "Çıkış",
            settings_window_title: "YTMusic Desktop Ayarları",
            mini_player_window_title: "YTMusic Desktop Mini Oynatıcı",
        },
    }
}

/// The interface text for `language`.
pub fn native_ui_strings(language: Language) -> (r: NativeUiStrings)
    ensures
        r == localized_strings(language),
{
    match language {
        Language::English => NativeUiStrings {
            open: "Open YTMusic Desktop",
            settings: "Settings",
            mini_player: "Mini Player",
            play_pause: "Play / Pause",
            previous: "Previous",
            next: "Next",
            quit: "Quit",
            settings_window_title: "YTMusic Desktop Settings",
            mini_player_window_title: "YTMusic Desktop Mini Player",
        },
        Language::Turkish => NativeUiStrings {
            open: "YTMusic Desktop'i Aç",
            settings: "Ayarlar",
            mini_player: "Mini Oynatıcı",
            play_pause: "Oynat / Duraklat",
            previous: "Önceki",
            next: "Sonraki",
            quit: "Çıkış",
            settings_window_title: "YTMusic Desktop Ayarları",
            mini_player_window_title: "YTMusic Desktop Mini Oynatıcı",
        },
    }
}

/// Whether two texts are equal.
pub fn same_text(a: &str, b: &str) -> (r: bool)
    ensures
        r == (a@ == b@),
{
    let x = crate::text::chars_of(a);
    let y = crate::text::chars_of(b);
    crate::text::chars_equal(x.as_slice(), y.as_slice())
}

/// Only the Mini Player window may ask for the local interface language.
pub fn ensure_mini_player_window_label(label: &str) -> (r: Result<(), String>)
    ensures
        r is Ok <==> label@ == MINI_PLAYER_WINDOW_LABEL@,
        r matches Err(e) ==> e@ == "local UI language access is only available to the Mini Player window"@,
{
    if same_text(label, MINI_PLAYER_WINDOW_LABEL) {
        Ok(())
    } else {
        Err(
            String::from_str(
                "local UI language access is only available to the Mini Player window",
            ),
        )
    }
}

/// In every language the Mini Player window is titled with the app's name
/// and the Mini Player's label, and in English the settings window with
/// the app's name and the settings label.
pub proof fn law_window_titles_use_the_labels(language: Language)
    ensures
        localized_strings(language).mini_player_window_title@ == "YTMusic Desktop "@
            + localized_strings(language).mini_player@,
        language == Language::English ==> localized_strings(language).settings_window_title@
            == "YTMusic Desktop "@ + localized_strings(language).settings@,
{
    reveal_strlit("YTMusic Desktop ");
    reveal_strlit("YTMusic Desktop Mini Player");
    reveal_strlit("Mini Player");
    reveal_strlit("YTMusic Desktop Mini Oynatıcı");
    reveal_strlit("Mini Oynatıcı");
    reveal_strlit("YTMusic Desktop Settings");
    reveal_strlit("Settings");
    assert("YTMusic Desktop Mini Player"@ =~= "YTMusic Desktop "@ + "Mini Player"@);
    assert("YTMusic Desktop Mini Oynatıcı"@ =~= "YTMusic Desktop "@ + "Mini Oynatıcı"@);
    assert("YTMusic Desktop Settings"@ =~= "YTMusic Desktop "@ + "Settings"@);
}

} // verus!
