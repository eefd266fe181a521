use std::{
    cell::{Cell, RefCell},
    collections::HashMap,
};

use global_hotkey::hotkey::HotKey;
use ytmdesktop::settings::{AppSettings, ShortcutAction, ShortcutSettings};
use ytmdesktop::shortcuts::{
    parse_shortcut, validate_shortcut_settings, validated_bindings, with_rollback_errors,
    RegisteredBinding, RegistrationBackend, SettingsPersistence, ShortcutManager,
};

#[derive(Default)]
struct FakeBackend {
    registrations: RefCell<HashMap<u32, ShortcutAction>>,
    fail_registration: Cell<Option<u32>>,
}

impl FakeBackend {
    fn fail_registration_for(&self, shortcut: &str) {
        self.fail_registration.set(Some(
            shortcut
                .parse::<HotKey>()
                .expect("test shortcut should parse")
                .id(),
        ));
    }

    fn is_registered(&self, shortcut: &str) -> bool {
        let shortcut = shortcut
            .parse::<HotKey>()
            .expect("test shortcut should parse");
        self.registrations.borrow().contains_key(&shortcut.id())
    }
}

impl RegistrationBackend for FakeBackend {
    fn register(&self, action: ShortcutAction, binding: &RegisteredBinding) -> Result<(), String> {
        let id = binding.shortcut.id;
        if self.fail_registration.get() == Some(id) {
            return Err("shortcut is already in use".to_string());
        }

        if self.registrations.borrow().contains_key(&id) {
            return Err("shortcut is already registered".to_string());
        }

        self.registrations.borrow_mut().insert(id, action);

        Ok(())
    }

    fn unregister(&self, binding: &RegisteredBinding) -> Result<(), String> {
        if self
            .registrations
            .borrow_mut()
            .remove(&binding.shortcut.id)
            .is_some()
        {
            Ok(())
        } else {
            Err("shortcut is not registered".to_string())
        }
    }
}

struct FakePersistence {
    settings: RefCell<AppSettings>,
    fail_replace: Cell<bool>,
}

impl FakePersistence {
    fn new(settings: AppSettings) -> Self {
        Self {
            settings: RefCell::new(settings),
            fail_replace: Cell::new(false),
        }
    }
}

impl SettingsPersistence for FakePersistence {
    fn snapshot(&self) -> AppSettings {
        self.settings.borrow().clone()
    }

    fn replace(&self, settings: AppSettings) -> Result<(), String> {
        if self.fail_replace.get() {
            Err("disk is read-only".to_string())
        } else {
            self.settings.replace(settings);
            Ok(())
        }
    }
}

fn custom_settings() -> AppSettings {
    AppSettings {
        shortcuts: ShortcutSettings {
            play_pause: "Ctrl+Shift+P".to_string(),
            next: "Ctrl+Shift+N".to_string(),
            previous: "Ctrl+Shift+B".to_string(),
            seek_forward_10: "Ctrl+Shift+F".to_string(),
            seek_backward_10: "Ctrl+Shift+R".to_string(),
        },
        ..AppSettings::default()
    }
}

#[test]
fn defaults_use_valid_non_media_shortcuts() {
    assert_eq!(
        validate_shortcut_settings(&ShortcutSettings::default()),
        Ok(())
    );
}

#[test]
fn rejects_invalid_syntax() {
    let error = parse_shortcut(ShortcutAction::PlayPause, "Ctrl+DefinitelyNotAKey")
        .err()
        .expect("unknown keys should be rejected");

    assert!(error.contains("invalid play/pause shortcut"));
}

#[test]
fn rejects_hardware_media_keys() {
    let error = parse_shortcut(ShortcutAction::PlayPause, "MediaPlayPause")
        .err()
        .expect("native media keys should not be registered twice");

    assert!(error.contains("native media controls already handle it"));
}

#[test]
fn detects_semantic_duplicates_across_aliases() {
    let shortcuts = ShortcutSettings {
        next: "Control+Alt+ArrowLeft".to_string(),
        ..ShortcutSettings::default()
    };

    let error = validate_shortcut_settings(&shortcuts)
        .expect_err("Left and ArrowLeft should identify the same shortcut");

    assert_eq!(error, "next and previous use the same shortcut");
}

#[test]
fn startup_keeps_registering_after_one_os_conflict() {
    let backend = FakeBackend::default();
    backend.fail_registration_for("Ctrl+Alt+Right");
    let mut manager = ShortcutManager::default();
    let report = manager.register_startup_with(&backend, &ShortcutSettings::default());

    assert_eq!(report.registered, 4);
    assert_eq!(report.failures.len(), 1);
    assert_eq!(report.failures[0].action, ShortcutAction::Next);
    assert!(backend.is_registered("Ctrl+Alt+Space"));
    assert!(backend.is_registered("Ctrl+Alt+Left"));
}

#[test]
fn failed_replacement_restores_the_previous_registration() {
    let backend = FakeBackend::default();
    let mut manager = ShortcutManager::default();
    let settings = AppSettings::default();
    let persistence = FakePersistence::new(settings.clone());
    let report = manager.register_startup_with(&backend, &settings.shortcuts);
    assert!(report.failures.is_empty());
    backend.fail_registration_for("Ctrl+Shift+P");

    let error = manager
        .update_shortcut_with(
            &backend,
            &persistence,
            ShortcutAction::PlayPause,
            "Ctrl+Shift+P".to_string(),
        )
        .expect_err("simulated OS conflict should reject the update");

    assert!(error.contains("the previous shortcut was restored"));
    assert!(backend.is_registered("Ctrl+Alt+Space"));
    assert!(!backend.is_registered("Ctrl+Shift+P"));
    assert_eq!(persistence.snapshot(), settings);
}

#[test]
fn successful_replacement_registers_and_persists_the_new_shortcut() {
    let backend = FakeBackend::default();
    let mut manager = ShortcutManager::default();
    let settings = AppSettings::default();
    let persistence = FakePersistence::new(settings);
    let report = manager.register_startup_with(&backend, &persistence.snapshot().shortcuts);
    assert!(report.failures.is_empty());

    let updated = manager
        .update_shortcut_with(
            &backend,
            &persistence,
            ShortcutAction::PlayPause,
            "Ctrl+Shift+P".to_string(),
        )
        .expect("available shortcut should be applied");

    assert_eq!(updated, persistence.snapshot());
    assert_eq!(updated.shortcuts.play_pause, "Ctrl+Shift+P");
    assert!(backend.is_registered("Ctrl+Shift+P"));
    assert!(!backend.is_registered("Ctrl+Alt+Space"));
}

#[test]
fn persistence_failure_restores_the_previous_registration() {
    let backend = FakeBackend::default();
    let mut manager = ShortcutManager::default();
    let settings = AppSettings::default();
    let persistence = FakePersistence::new(settings.clone());
    let report = manager.register_startup_with(&backend, &settings.shortcuts);
    assert!(report.failures.is_empty());
    persistence.fail_replace.set(true);

    let error = manager
        .update_shortcut_with(
            &backend,
            &persistence,
            ShortcutAction::PlayPause,
            "Ctrl+Shift+P".to_string(),
        )
        .expect_err("simulated disk failure should reject the update");

    assert!(error.contains("the previous shortcut was restored"));
    assert!(backend.is_registered("Ctrl+Alt+Space"));
    assert!(!backend.is_registered("Ctrl+Shift+P"));
    assert_eq!(persistence.snapshot(), settings);
}

#[test]
fn duplicate_update_does_not_change_registrations_or_settings() {
    let backend = FakeBackend::default();
    let mut manager = ShortcutManager::default();
    let settings = AppSettings::default();
    let persistence = FakePersistence::new(settings.clone());
    let report = manager.register_startup_with(&backend, &settings.shortcuts);
    assert!(report.failures.is_empty());

    let error = manager
        .update_shortcut_with(
            &backend,
            &persistence,
            ShortcutAction::Previous,
            "Control+Alt+ArrowRight".to_string(),
        )
        .expect_err("semantic duplicate should be rejected before mutation");

    assert_eq!(error, "next and previous use the same shortcut");
    assert!(backend.is_registered("Ctrl+Alt+Right"));
    assert!(backend.is_registered("Ctrl+Alt+Left"));
    assert_eq!(persistence.snapshot(), settings);
}

#[test]
fn restore_defaults_rolls_back_all_registrations_on_conflict() {
    let backend = FakeBackend::default();
    let mut manager = ShortcutManager::default();
    let settings = custom_settings();
    let persistence = FakePersistence::new(settings.clone());
    let report = manager.register_startup_with(&backend, &settings.shortcuts);
    assert!(report.failures.is_empty());
    backend.fail_registration_for("Ctrl+Alt+Right");

    let error = manager
        .restore_defaults_with(&backend, &persistence)
        .expect_err("one conflicting default should roll back the entire restore");

    assert!(error.contains("the previous shortcuts were restored"));
    for (_, shortcut) in settings.shortcuts.iter() {
        assert!(backend.is_registered(&shortcut));
    }
    assert_eq!(persistence.snapshot(), settings);
}

#[test]
fn restore_defaults_rolls_back_when_persistence_fails() {
    let backend = FakeBackend::default();
    let mut manager = ShortcutManager::default();
    let settings = custom_settings();
    let persistence = FakePersistence::new(settings.clone());
    let report = manager.register_startup_with(&backend, &settings.shortcuts);
    assert!(report.failures.is_empty());
    persistence.fail_replace.set(true);

    let error = manager
        .restore_defaults_with(&backend, &persistence)
        .expect_err("disk failure should roll back restored defaults");

    assert!(error.contains("the previous shortcuts were restored"));
    assert_eq!(persistence.snapshot(), settings);
    for (_, shortcut) in settings.shortcuts.iter() {
        assert!(backend.is_registered(&shortcut));
    }
    for (_, shortcut) in ShortcutSettings::default().iter() {
        assert!(!backend.is_registered(&shortcut));
    }
}

#[test]
fn restore_defaults_registers_and_persists_every_default() {
    let backend = FakeBackend::default();
    let mut manager = ShortcutManager::default();
    let settings = custom_settings();
    let persistence = FakePersistence::new(settings.clone());
    let report = manager.register_startup_with(&backend, &settings.shortcuts);
    assert!(report.failures.is_empty());

    let restored = manager
        .restore_defaults_with(&backend, &persistence)
        .expect("available defaults should be restored");

    assert_eq!(restored, AppSettings::default());
    assert_eq!(persistence.snapshot(), AppSettings::default());
    for (_, shortcut) in ShortcutSettings::default().iter() {
        assert!(backend.is_registered(&shortcut));
    }
    for (_, shortcut) in settings.shortcuts.iter() {
        assert!(!backend.is_registered(&shortcut));
    }
}

#[test]
fn startup_reports_parse_errors_and_hotkey_duplicates() {
    let backend = FakeBackend::default();
    let mut manager = ShortcutManager::default();
    let shortcuts = ShortcutSettings {
        play_pause: "Ctrl+NotAKey".to_string(),
        previous: " Control+Alt+ArrowRight ".to_string(),
        ..ShortcutSettings::default()
    };
    let report = manager.register_startup_with(&backend, &shortcuts);

    assert_eq!(report.registered, 3);
    assert_eq!(report.failures.len(), 2);
    assert_eq!(report.failures[0].action, ShortcutAction::PlayPause);
    assert!(report.failures[0].error.contains("invalid play/pause shortcut `Ctrl+NotAKey`"));
    assert_eq!(report.failures[1].action, ShortcutAction::Previous);
    assert_eq!(report.failures[1].shortcut, "Control+Alt+ArrowRight");
    assert_eq!(
        report.failures[1].error,
        "next and previous use the same shortcut"
    );
    assert!(manager.registered(ShortcutAction::PlayPause).is_none());
    assert_eq!(
        manager
            .registered(ShortcutAction::Next)
            .map(|binding| binding.text),
        Some("Ctrl+Alt+Right".to_string())
    );
}

#[test]
fn bindings_carry_the_parsed_hotkey_identifier() {
    let bindings = validated_bindings(&ShortcutSettings::default()).expect("defaults are valid");
    let expected: HotKey = "Ctrl+Alt+Space".parse().expect("parses");
    assert_eq!(bindings.len(), 5);
    assert_eq!(bindings[0].0, ShortcutAction::PlayPause);
    assert_eq!(bindings[0].1.text, "Ctrl+Alt+Space");
    assert_eq!(bindings[0].1.shortcut.id, expected.id());
    assert_eq!(bindings[0].1.shortcut.key, "Space");
}

#[test]
fn rollback_messages_list_every_failed_step() {
    assert_eq!(
        with_rollback_errors("boom".to_string(), Vec::new()),
        "boom; the previous shortcuts were restored"
    );
    assert_eq!(
        with_rollback_errors(
            "boom".to_string(),
            vec!["a failed".to_string(), "b failed".to_string()]
        ),
        "boom; rollback was incomplete: a failed; b failed"
    );
}

#[test]
fn persistence_failure_without_a_previous_binding_unregisters_the_new_one() {
    let backend = FakeBackend::default();
    let mut manager = ShortcutManager::default();
    let persistence = FakePersistence::new(AppSettings::default());
    persistence.fail_replace.set(true);

    let error = manager
        .update_shortcut_with(
            &backend,
            &persistence,
            ShortcutAction::Next,
            "Ctrl+Shift+N".to_string(),
        )
        .expect_err("the disk is read-only");

    assert_eq!(error, "failed to persist shortcut settings: disk is read-only");
    assert!(!backend.is_registered("Ctrl+Shift+N"));
}

#[test]
fn startup_reports_the_backend_error_for_a_refused_shortcut() {
    let backend = FakeBackend::default();
    backend.fail_registration_for("Ctrl+Alt+Right");
    let mut manager = ShortcutManager::default();
    let report = manager.register_startup_with(&backend, &ShortcutSettings::default());

    assert_eq!(report.registered, 4);
    assert_eq!(
        report.failures[0].error,
        "failed to register next shortcut: shortcut is already in use"
    );
    assert_eq!(report.failures[0].shortcut, "Ctrl+Alt+Right");
    assert!(manager.registered(ShortcutAction::Next).is_none());
    assert!(manager.registered(ShortcutAction::Previous).is_some());
}

#[test]
fn successful_update_writes_the_snapshot_with_the_trimmed_text() {
    let backend = FakeBackend::default();
    let mut manager = ShortcutManager::default();
    let mut stored = AppSettings::default();
    stored.schema_version = 7;
    let persistence = FakePersistence::new(stored.clone());
    manager.register_startup_with(&backend, &stored.shortcuts);

    let updated = manager
        .update_shortcut_with(
            &backend,
            &persistence,
            ShortcutAction::Next,
            "  Ctrl+Shift+N  ".to_string(),
        )
        .expect("the new shortcut is free");

    let mut expected = stored.clone();
    expected.shortcuts.next = "Ctrl+Shift+N".to_string();
    assert_eq!(updated, expected);
    assert_eq!(persistence.snapshot(), expected);
    assert!(backend.is_registered("Ctrl+Shift+N"));
    assert!(!backend.is_registered("Ctrl+Alt+Right"));
}

#[test]
fn update_refused_by_the_library_makes_no_backend_call() {
    let backend = FakeBackend::default();
    let mut manager = ShortcutManager::default();
    let persistence = FakePersistence::new(AppSettings::default());

    let error = manager
        .update_shortcut_with(&backend, &persistence, ShortcutAction::Next, "   ".to_string())
        .expect_err("a blank shortcut is refused");

    assert!(!error.is_empty());
    assert!(backend.registrations.borrow().is_empty());
    assert_eq!(persistence.snapshot(), AppSettings::default());
}
