use ytmdesktop::settings::{
    normalize_for_duplicate_detection, AppSettings, ApplicationSettings, Language, ShortcutAction,
    ShortcutSettings, CURRENT_SETTINGS_SCHEMA_VERSION, MAX_SHORTCUT_LENGTH,
};

#[test]
fn defaults_match_the_documented_shortcuts() {
    let settings = AppSettings::default();

    assert_eq!(settings.schema_version, CURRENT_SETTINGS_SCHEMA_VERSION);
    assert_eq!(settings.application, ApplicationSettings::default());
    assert_eq!(settings.application.language, Language::English);
    assert!(settings.application.discord_rich_presence_enabled);
    assert!(settings.application.close_to_tray);
    assert!(!settings.application.start_minimized);
    assert!(!settings.application.mini_player_always_on_top);
    assert_eq!(settings.shortcuts.play_pause, "Ctrl+Alt+Space");
    assert_eq!(settings.shortcuts.next, "Ctrl+Alt+Right");
    assert_eq!(settings.shortcuts.previous, "Ctrl+Alt+Left");
    assert_eq!(settings.shortcuts.seek_forward_10, "Ctrl+Alt+Shift+Right");
    assert_eq!(settings.shortcuts.seek_backward_10, "Ctrl+Alt+Shift+Left");
    assert_eq!(settings.validate(), Ok(()));
}

#[test]
fn rejects_unsupported_schema_versions() {
    let settings = AppSettings {
        schema_version: CURRENT_SETTINGS_SCHEMA_VERSION + 1,
        ..AppSettings::default()
    };

    assert_eq!(
        settings.validate(),
        Err(format!(
            "unsupported settings schema version {}; expected {}",
            CURRENT_SETTINGS_SCHEMA_VERSION + 1,
            CURRENT_SETTINGS_SCHEMA_VERSION
        ))
    );
}

#[test]
fn rejects_empty_and_overlong_shortcuts() {
    let mut settings = AppSettings::default();
    settings.shortcuts.next = "  ".to_string();

    assert_eq!(
        settings.validate(),
        Err("next shortcut cannot be empty".to_string())
    );

    settings.shortcuts.next = "x".repeat(MAX_SHORTCUT_LENGTH + 1);

    assert_eq!(
        settings.validate(),
        Err("next shortcut exceeds the maximum length".to_string())
    );
}

#[test]
fn rejects_duplicates_ignoring_case_spacing_and_modifier_order() {
    let mut settings = AppSettings::default();
    settings.shortcuts.next = "CTRL + alt + right".to_string();
    settings.shortcuts.previous = "Right+Alt+Ctrl".to_string();

    assert_eq!(
        settings.validate(),
        Err("next and previous use the same shortcut".to_string())
    );
}

#[test]
fn get_set_and_iter_cover_every_action() {
    let mut shortcuts = ShortcutSettings::default();

    for action in ShortcutAction::ALL {
        let value = format!("Ctrl+Shift+{:?}", action);
        shortcuts.set(action, value.clone());
        assert_eq!(shortcuts.get(action), value);
    }

    assert_eq!(shortcuts.iter().count(), ShortcutAction::ALL.len());
}

#[test]
fn normalization_sorts_lowercased_trimmed_parts() {
    assert_eq!(
        normalize_for_duplicate_detection(" Shift + CTRL+ a "),
        "a+ctrl+shift"
    );
    assert_eq!(normalize_for_duplicate_detection("Ctrl++Alt"), "+alt+ctrl");
    assert_eq!(normalize_for_duplicate_detection(""), "");
    assert_eq!(normalize_for_duplicate_detection("\u{3000}Ä+b"), "b+Ä");
}

#[test]
fn overlong_limit_counts_utf8_bytes() {
    let mut settings = AppSettings::default();
    // 43 three-byte characters are 129 bytes though only 43 characters.
    settings.shortcuts.play_pause = "€".repeat(43);
    assert_eq!(
        settings.validate(),
        Err("play/pause shortcut exceeds the maximum length".to_string())
    );
    settings.shortcuts.play_pause = "€".repeat(42);
    assert_eq!(settings.validate(), Ok(()));
}

#[test]
fn the_first_problem_in_action_order_is_reported() {
    let mut settings = AppSettings::default();
    settings.shortcuts.seek_backward_10 = "".to_string();
    settings.shortcuts.previous = "ctrl+alt+space".to_string();
    assert_eq!(
        settings.validate(),
        Err("play/pause and previous use the same shortcut".to_string())
    );
}

#[test]
fn entries_follow_the_action_order() {
    let shortcuts = ShortcutSettings::default();
    let entries = shortcuts.entries();
    let actions: Vec<ShortcutAction> = entries.iter().map(|(action, _)| *action).collect();
    assert_eq!(actions, ShortcutAction::ALL.to_vec());
    assert_eq!(entries[3].1, "Ctrl+Alt+Shift+Right");
}
