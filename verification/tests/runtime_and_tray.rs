use ytmdesktop::runtime_settings::{CommittedEffects, RuntimeSettings};
use ytmdesktop::settings::{ApplicationSettings, Language};
use ytmdesktop::tray::{relabel_outcome, tray_action, tray_menu, TrayAction, TrayEntry};

#[test]
fn runtime_changes_touch_only_what_changed() {
    let runtime = RuntimeSettings::new(());
    let current = ApplicationSettings::default();
    let mut updated = current;
    updated.mini_player_always_on_top = true;
    updated.language = Language::Turkish;

    assert_eq!(runtime.prepare_change(&current, &updated), Some(true));
    assert_eq!(runtime.rollback_change(&current, &updated), Some(false));
    assert_eq!(
        runtime.apply_committed_change(&current, &updated),
        CommittedEffects { discord_enabled: None, language: Some(Language::Turkish) }
    );

    assert_eq!(runtime.prepare_change(&current, &current), None);
    assert_eq!(runtime.rollback_change(&current, &current), None);
    assert_eq!(
        runtime.apply_committed_change(&current, &current),
        CommittedEffects { discord_enabled: None, language: None }
    );

    let mut discord_off = current;
    discord_off.discord_rich_presence_enabled = false;
    assert_eq!(
        runtime.apply_committed_change(&current, &discord_off),
        CommittedEffects { discord_enabled: Some(false), language: None }
    );
}

#[test]
fn the_tray_menu_lists_windows_controls_and_quit() {
    let menu = tray_menu(Language::English);
    assert_eq!(menu.len(), 9);
    assert_eq!(menu[0], TrayEntry::Item { id: "open", label: "Open YTMusic Desktop" });
    assert_eq!(menu[3], TrayEntry::Separator);
    assert_eq!(menu[4], TrayEntry::Item { id: "play_pause", label: "Play / Pause" });
    assert_eq!(menu[7], TrayEntry::Separator);
    assert_eq!(menu[8], TrayEntry::Item { id: "quit", label: "Quit" });

    let turkish = tray_menu(Language::Turkish);
    assert_eq!(turkish[1], TrayEntry::Item { id: "settings", label: "Ayarlar" });
    assert_eq!(turkish[8], TrayEntry::Item { id: "quit", label: "Çıkış" });
}

#[test]
fn every_tray_entry_has_an_action() {
    for entry in tray_menu(Language::English) {
        if let TrayEntry::Item { id, .. } = entry {
            assert!(tray_action(id).is_some(), "{id}");
        }
    }
    assert_eq!(tray_action("open"), Some(TrayAction::ShowMain));
    assert_eq!(tray_action("mini_player"), Some(TrayAction::ShowMiniPlayer));
    assert_eq!(tray_action("play_pause"), Some(TrayAction::TogglePlayback));
    assert_eq!(tray_action("quit"), Some(TrayAction::Quit));
    assert_eq!(tray_action("Quit"), None);
    assert_eq!(tray_action(""), None);
}

#[test]
fn relabelling_reports_every_failure() {
    assert_eq!(relabel_outcome(&Vec::new()), Ok(()));
    assert_eq!(
        relabel_outcome(&vec!["a failed".to_string(), "b failed".to_string()]),
        Err("a failed; b failed".to_string())
    );
}
