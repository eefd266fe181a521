use ytmdesktop::localization::{self, native_ui_strings};
use ytmdesktop::mini_player;
use ytmdesktop::settings::Language;
use ytmdesktop::settings_commands::{ensure_settings_window_label, with_runtime_rollback};
use ytmdesktop::window::{main_close_behavior, MainCloseBehavior};

#[test]
fn native_strings_cover_both_supported_languages() {
    assert_eq!(native_ui_strings(Language::English).settings, "Settings");
    assert_eq!(native_ui_strings(Language::Turkish).settings, "Ayarlar");
    assert_eq!(native_ui_strings(Language::Turkish).quit, "Çıkış");
}

#[test]
fn language_command_accepts_only_the_mini_player_window() {
    assert_eq!(localization::ensure_mini_player_window_label("mini-player"), Ok(()));
    assert!(localization::ensure_mini_player_window_label("settings").is_err());
    assert!(localization::ensure_mini_player_window_label("main").is_err());
}

#[test]
fn accepts_only_the_mini_player_window_label() {
    assert_eq!(mini_player::ensure_mini_player_window_label("mini-player"), Ok(()));
    assert_eq!(
        mini_player::ensure_mini_player_window_label("main"),
        Err("mini player commands are only available to the local Mini Player window".to_string())
    );
    assert!(mini_player::ensure_mini_player_window_label("settings").is_err());
}

#[test]
fn main_close_behavior_follows_the_setting() {
    assert_eq!(main_close_behavior(true), MainCloseBehavior::HideToTray);
    assert_eq!(main_close_behavior(false), MainCloseBehavior::Exit);
}

#[test]
fn settings_commands_accept_only_the_settings_window() {
    assert_eq!(ensure_settings_window_label("settings"), Ok(()));
    assert!(ensure_settings_window_label("main").is_err());
    assert!(ensure_settings_window_label("mini-player").is_err());
}

#[test]
fn rollback_errors_retain_both_failure_reasons() {
    let message = with_runtime_rollback(
        "settings could not be saved".to_string(),
        Err("always-on-top rollback failed".to_string()),
    );

    assert!(message.contains("settings could not be saved"));
    assert!(message.contains("always-on-top rollback failed"));
}

#[test]
fn successful_rollback_keeps_the_primary_error_only() {
    assert_eq!(
        with_runtime_rollback("disk full".to_string(), Ok(())),
        "disk full"
    );
    assert_eq!(
        with_runtime_rollback("disk full".to_string(), Err("no window".to_string())),
        "disk full; restoring the previous runtime settings failed: no window"
    );
}

#[test]
fn every_native_string_is_localized() {
    let english = native_ui_strings(Language::English);
    let turkish = native_ui_strings(Language::Turkish);
    assert_eq!(english.open, "Open YTMusic Desktop");
    assert_eq!(turkish.open, "YTMusic Desktop'i Aç");
    assert_eq!(english.mini_player_window_title, "YTMusic Desktop Mini Player");
    assert_eq!(turkish.mini_player_window_title, "YTMusic Desktop Mini Oynatıcı");
    assert_eq!(turkish.previous, "Önceki");
    assert_eq!(english.play_pause, "Play / Pause");
}

#[test]
fn window_label_guards_reject_near_misses() {
    assert!(ensure_settings_window_label("Settings").is_err());
    assert!(ensure_settings_window_label("settings ").is_err());
    assert_eq!(
        localization::ensure_mini_player_window_label("mini_player"),
        Err("local UI language access is only available to the Mini Player window".to_string())
    );
}
