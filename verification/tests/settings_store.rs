use ytmdesktop::settings::{AppSettings, Language, ShortcutSettings};
use ytmdesktop::settings_store::{SettingsFileRead, SettingsStore};

/// What reading back the written settings file gives.
fn reload(store: &SettingsStore) -> SettingsStore {
    SettingsStore::load(SettingsFileRead::Parsed(store.snapshot()))
}

#[test]
fn missing_file_loads_defaults_without_a_warning() {
    let (store, warning) = SettingsStore::load_with_diagnostics(SettingsFileRead::Missing);
    assert_eq!(store.snapshot(), AppSettings::default());
    assert_eq!(warning, None);
}

#[test]
fn replace_persists_and_load_roundtrips_settings() {
    let mut store = SettingsStore::load(SettingsFileRead::Missing);
    let mut settings = store.snapshot();
    settings.shortcuts.play_pause = "Ctrl+Shift+P".to_string();
    store.replace(settings.clone(), Ok(())).expect("valid settings should persist");

    settings.shortcuts.next = "Ctrl+Shift+N".to_string();
    store.replace(settings.clone(), Ok(())).expect("a second valid replacement should persist");

    let (reloaded, warning) =
        SettingsStore::load_with_diagnostics(SettingsFileRead::Parsed(store.snapshot()));
    assert_eq!(reloaded.snapshot(), settings);
    assert_eq!(warning, None);
}

#[test]
fn corrupt_json_loads_defaults_with_a_warning() {
    let (store, warning) = SettingsStore::load_with_diagnostics(SettingsFileRead::Malformed(
        "key must be a string at line 1 column 3".to_string(),
    ));
    assert_eq!(store.snapshot(), AppSettings::default());
    assert!(warning.as_deref().is_some_and(|message| message.contains("settings JSON is invalid")));
}

#[test]
fn unreadable_files_load_defaults_with_a_warning() {
    let (store, warning) = SettingsStore::load_with_diagnostics(SettingsFileRead::Unreadable(
        "permission denied".to_string(),
    ));
    assert_eq!(store.snapshot(), AppSettings::default());
    assert_eq!(
        warning.as_deref(),
        Some("failed to read settings; using defaults: permission denied")
    );
}

#[test]
fn invalid_settings_load_defaults_with_a_warning() {
    let mut settings = AppSettings::default();
    settings.shortcuts.previous = settings.shortcuts.next.clone();
    let (store, warning) = SettingsStore::load_with_diagnostics(SettingsFileRead::Parsed(settings));
    assert_eq!(store.snapshot(), AppSettings::default());
    assert!(warning.as_deref().is_some_and(|message| message.contains("settings are invalid")));
}

#[test]
fn unsupported_schema_version_loads_defaults_with_a_warning() {
    let mut settings = AppSettings::default();
    settings.schema_version += 1;
    let (store, warning) = SettingsStore::load_with_diagnostics(SettingsFileRead::Parsed(settings));
    assert_eq!(store.snapshot(), AppSettings::default());
    assert_eq!(
        warning.as_deref(),
        Some("settings are invalid; using defaults: unsupported settings schema version 2; expected 1")
    );
}

#[test]
fn rejected_replacement_does_not_change_memory_or_disk() {
    let mut store = SettingsStore::load(SettingsFileRead::Missing);
    let expected = store.snapshot();
    store.replace(expected.clone(), Ok(())).expect("defaults should persist");

    let mut invalid = expected.clone();
    invalid.shortcuts.previous = invalid.shortcuts.next.clone();

    assert!(store.replace(invalid, Ok(())).is_err());
    assert_eq!(store.snapshot(), expected);
    assert_eq!(reload(&store).snapshot(), expected);
}

#[test]
fn persistence_failure_does_not_change_the_in_memory_snapshot() {
    let mut store = SettingsStore::load(SettingsFileRead::Missing);
    let expected = store.snapshot();
    let mut changed = expected.clone();
    changed.shortcuts.play_pause = "Ctrl+Shift+P".to_string();

    let failure = "failed to create settings directory: Not a directory (os error 20)";
    assert_eq!(store.replace(changed, Err(failure.to_string())), Err(failure.to_string()));
    assert_eq!(store.snapshot(), expected);
}

#[test]
fn update_validates_and_persists_the_changed_snapshot() {
    let mut store = SettingsStore::load(SettingsFileRead::Missing);
    let mut changed = store.snapshot();
    changed.shortcuts.seek_forward_10 = "Ctrl+Shift+Period".to_string();

    let updated = store.update(changed, Ok(())).expect("valid update should persist");

    assert_eq!(updated.shortcuts.seek_forward_10, "Ctrl+Shift+Period");
    assert_eq!(reload(&store).snapshot(), updated);
}

#[test]
fn application_update_preserves_shortcut_settings() {
    let mut store = SettingsStore::load(SettingsFileRead::Missing);
    let mut changed = store.snapshot();
    changed.shortcuts.play_pause = "Ctrl+Shift+P".to_string();
    store.update(changed, Ok(())).expect("custom shortcut should persist");
    let shortcuts = store.snapshot().shortcuts;

    let mut changed = store.snapshot();
    changed.application.start_minimized = true;
    changed.application.close_to_tray = false;
    let updated = store.update(changed, Ok(())).expect("application settings should persist");

    assert_eq!(updated.shortcuts, shortcuts);
    assert!(updated.application.start_minimized);
    assert!(!updated.application.close_to_tray);
    assert_eq!(reload(&store).snapshot(), updated);
}

#[test]
fn rejected_update_does_not_change_memory_or_disk() {
    let mut store = SettingsStore::load(SettingsFileRead::Missing);
    let expected = store.snapshot();
    store.replace(expected.clone(), Ok(())).expect("defaults should persist");

    let mut changed = store.snapshot();
    changed.schema_version += 1;
    let error = store.update(changed, Ok(())).expect_err("unsupported schema update should be rejected");

    assert!(error.contains("unsupported settings schema version"));
    assert_eq!(store.snapshot(), expected);
    assert_eq!(reload(&store).snapshot(), expected);
}

#[test]
fn recovery_resets_memory_and_disk_to_defaults() {
    let mut store = SettingsStore::load(SettingsFileRead::Missing);
    let mut changed = store.snapshot();
    changed.shortcuts.play_pause = "Ctrl+Shift+P".to_string();
    store.update(changed, Ok(())).expect("custom settings should persist");

    let written = store.recover_defaults();

    assert_eq!(written, AppSettings::default());
    assert_eq!(store.snapshot(), AppSettings::default());
    assert_eq!(reload(&store).snapshot(), AppSettings::default());
}

#[test]
fn shortcut_recovery_preserves_application_settings() {
    let mut store = SettingsStore::load(SettingsFileRead::Missing);
    let mut changed = store.snapshot();
    changed.application.language = Language::Turkish;
    changed.application.start_minimized = true;
    changed.shortcuts.play_pause = "Ctrl+Shift+P".to_string();
    store.update(changed, Ok(())).expect("custom settings should persist");

    let written = store.recover_shortcut_defaults();
    assert_eq!(written, store.snapshot());

    let recovered = reload(&store).snapshot();
    assert_eq!(recovered.shortcuts, ShortcutSettings::default());
    assert_eq!(recovered.application.language, Language::Turkish);
    assert!(recovered.application.start_minimized);
}
