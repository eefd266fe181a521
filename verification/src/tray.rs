//! The system tray menu: its entries in each language, what each entry
//! does, and how failed label updates are reported.
use vstd::prelude::*;

use crate::localization::{localized_strings, native_ui_strings, same_text, NativeUiStrings};
use crate::settings::{spec_field_name, Language, ShortcutAction};
use crate::text::ascii_lower;
use crate::text::{join_seqs, join_strings};

verus! {

/// What a tray menu entry asks for.
#[derive(Debug, Clone, Copy, PartialEq, Eq, Structural)]
pub enum TrayAction {
    ShowMain,
    ShowSettings,
    ShowMiniPlayer,
    TogglePlayback,
    Previous,
    Next,
    Quit,
}

/// One line of the tray menu.
#[derive(Debug, Clone, Copy, PartialEq, Eq)]
pub enum TrayEntry {
    Item { id: &'static str, label: &'static str },
    Separator,
}

/// The tray menu for `language`, top to bottom: the three windows, a
/// separator, the three playback controls, a separator, and quit.
pub open spec fn tray_layout(language: Language) -> Seq<TrayEntry> {
    let s = localized_strings(language);
    seq![
        TrayEntry::Item { id: "open", label: s.open },
        TrayEntry::Item { id: "settings", label: s.settings },
        TrayEntry::Item { id: "mini_player", label: s.mini_player },
        TrayEntry::Separator,
        TrayEntry::Item { id: "play_pause", label: s.play_pause },
        TrayEntry::Item { id: "previous", label: s.previous },
        TrayEntry::Item { id: "next", label: s.next },
        TrayEntry::Separator,
        TrayEntry::Item { id: "quit", label: s.quit },
    ]
}

/// The action of the menu entry with this id, if any.
pub open spec fn spec_tray_action(id: Seq<char>) -> Option<TrayAction> {
    if id == "open"@ {
        Some(TrayAction::ShowMain)
    } else if id == "settings"@ {
        Some(TrayAction::ShowSettings)
    } else if id == "mini_player"@ {
        Some(TrayAction::ShowMiniPlayer)
    } else if id == "play_pause"@ {
        Some(TrayAction::TogglePlayback)
    } else if id == "previous"@ {
        Some(TrayAction::Previous)
    } else if id == "next"@ {
        Some(TrayAction::Next)
    } else if id == "quit"@ {
        Some(TrayAction::Quit)
    } else {
        None
    }
}

/// The tray menu for `language`.
pub fn tray_menu(language: Language) -> (r: Vec<TrayEntry>)
    ensures
        r@ == tray_layout(language),
{
    let s = native_ui_strings(language);
    let r = vec![
        TrayEntry::Item { id: "open", label: s.open },
        TrayEntry::Item { id: "settings", label: s.settings },
        TrayEntry::Item { id: "mini_player", label: s.mini_player },
        TrayEntry::Separator,
        TrayEntry::Item { id: "play_pause", label: s.play_pause },
        TrayEntry::Item { id: "previous", label: s.previous },
        TrayEntry::Item { id: "next", label: s.next },
        TrayEntry::Separator,
        TrayEntry::Item { id: "quit", label: s.quit },
    ];
    assert(r@ == tray_layout(language));
    r
}

/// The action of the menu entry with this id; `None` for an unknown id.
pub fn tray_action(id: &str) -> (r: Option<TrayAction>)
    ensures
        r == spec_tray_action(id@),
{
    if same_text(id, "open") {
        Some(TrayAction::ShowMain)
    } else if same_text(id, "settings") {
        Some(TrayAction::ShowSettings)
    } else if same_text(id, "mini_player") {
        Some(TrayAction::ShowMiniPlayer)
    } else if same_text(id, "play_pause") {
        Some(TrayAction::TogglePlayback)
    } else if same_text(id, "previous") {
        Some(TrayAction::Previous)
    } else if same_text(id, "next") {
        Some(TrayAction::Next)
    } else if same_text(id, "quit") {
        Some(TrayAction::Quit)
    } else {
        None
    }
}

/// The outcome of relabelling the menu: `Ok` when no label failed,
/// otherwise the failures joined with "; ".
pub fn relabel_outcome(errors: &Vec<String>) -> (r: Result<(), String>)
    ensures
        r is Ok <==> errors@.len() == 0,
        r matches Err(e) ==> e@ == join_seqs(errors@.map_values(|x: String| x@), "; "@),
{
    if errors.len() == 0 {
        Ok(())
    } else {
        Err(join_strings(errors, "; "))
    }
}

/// The ids of the tray entries are distinct texts: their lengths and first
/// letters tell them apart.
proof fn lemma_tray_ids_distinct()
    ensures
        "open"@.len() == 4 && "open"@[0] == 'o',
        "settings"@.len() == 8 && "settings"@[0] == 's',
        "mini_player"@.len() == 11,
        "play_pause"@.len() == 10,
        "previous"@.len() == 8 && "previous"@[0] == 'p',
        "next"@.len() == 4 && "next"@[0] == 'n',
        "quit"@.len() == 4 && "quit"@[0] == 'q',
{
    reveal_strlit("open");
    reveal_strlit("settings");
    reveal_strlit("mini_player");
    reveal_strlit("play_pause");
    reveal_strlit("previous");
    reveal_strlit("next");
    reveal_strlit("quit");
}

/// The label, in the interface text `s`, of the control that `a` triggers.
pub open spec fn action_label(s: NativeUiStrings, a: TrayAction) -> &'static str {
    match a {
        TrayAction::ShowMain => s.open,
        TrayAction::ShowSettings => s.settings,
        TrayAction::ShowMiniPlayer => s.mini_player,
        TrayAction::TogglePlayback => s.play_pause,
        TrayAction::Previous => s.previous,
        TrayAction::Next => s.next,
        TrayAction::Quit => s.quit,
    }
}

/// The shortcut action that steps through tracks the way the tray action
/// `a` does, if `a` steps through tracks.
pub open spec fn track_step(a: TrayAction) -> Option<ShortcutAction> {
    match a {
        TrayAction::Previous => Some(ShortcutAction::Previous),
        TrayAction::Next => Some(ShortcutAction::Next),
        _ => None,
    }
}

/// In every language, each entry of the tray menu triggers an action, and
/// that action is the control the entry's label names.
pub proof fn law_entries_trigger_their_labelled_control(language: Language)
    ensures
        forall|i: int|
            0 <= i < tray_layout(language).len() ==> (#[trigger] tray_layout(language)[i] matches TrayEntry::Item { id, label } ==> (
            spec_tray_action(id@) matches Some(a) && action_label(localized_strings(language), a)
                == label)),
{
    lemma_tray_ids_distinct();
}

/// The tray entries that step through tracks have the ids that name the
/// same step among the shortcut actions, and each such id triggers that
/// step: "previous" plays the previous track and "next" the next one.
pub proof fn law_track_steps_match_their_ids(id: Seq<char>, b: ShortcutAction)
    ensures
        spec_tray_action(id) matches Some(a) ==> (track_step(a) matches Some(s) ==> id
            == spec_field_name(s)),
        (b == ShortcutAction::Previous || b == ShortcutAction::Next) ==> (spec_tray_action(
            spec_field_name(b),
        ) matches Some(a) && track_step(a) == Some(b)),
{
    lemma_tray_ids_distinct();
    if let Some(a) = spec_tray_action(id) {
        if let Some(st) = track_step(a) {
            reveal_strlit("previous");
            reveal_strlit("next");
            if a == TrayAction::Previous {
                assert(id == "previous"@);
                assert(spec_field_name(st) =~= "previous"@);
            } else {
                assert(id == "next"@);
                assert(spec_field_name(st) =~= "next"@);
            }
        }
    }
}

/// The entry's id is a single word.
pub open spec fn one_word_id(id: Seq<char>) -> bool {
    id == "settings"@ || id == "previous"@ || id == "next"@ || id == "quit"@
}

/// In the English menu, the label of every entry whose id is one word is
/// that word with its first letter in upper case: the label names the
/// control the entry stands for.
pub proof fn law_english_labels_spell_their_ids()
    ensures
        forall|i: int|
            0 <= i < tray_layout(Language::English).len() ==> (#[trigger] tray_layout(
                Language::English,
            )[i] matches TrayEntry::Item { id, label } ==> (one_word_id(id@) ==> ascii_lower(
                label@,
            ) == id@)),
{
    lemma_tray_ids_distinct();
    reveal_strlit("Settings");
    reveal_strlit("Previous");
    reveal_strlit("Next");
    reveal_strlit("Quit");
    reveal_strlit("settings");
    reveal_strlit("previous");
    reveal_strlit("next");
    reveal_strlit("quit");
    assert("Settings"@ =~= seq!['S', 'e', 't', 't', 'i', 'n', 'g', 's']);
    assert("settings"@ =~= seq!['s', 'e', 't', 't', 'i', 'n', 'g', 's']);
    assert(ascii_lower("Settings"@) =~= "settings"@);
    assert("Previous"@ =~= seq!['P', 'r', 'e', 'v', 'i', 'o', 'u', 's']);
    assert("previous"@ =~= seq!['p', 'r', 'e', 'v', 'i', 'o', 'u', 's']);
    assert(ascii_lower("Previous"@) =~= "previous"@);
    assert(ascii_lower("Next"@) =~= "next"@);
    assert(ascii_lower("Quit"@) =~= "quit"@);
}

/// Only the ids of the menu's entries trigger an action.
pub proof fn law_only_menu_ids_trigger(id: Seq<char>, language: Language)
    ensures
        spec_tray_action(id) is Some ==> exists|i: int|
            0 <= i < tray_layout(language).len() && (#[trigger] tray_layout(language)[i] matches TrayEntry::Item { id: e, label: _ } && e@ == id),
{
    if spec_tray_action(id) is Some {
        let t = tray_layout(language);
        if id == "open"@ {
            assert(t[0] matches TrayEntry::Item { id: e, label: _ } && e@ == id);
        } else if id == "settings"@ {
            assert(t[1] matches TrayEntry::Item { id: e, label: _ } && e@ == id);
        } else if id == "mini_player"@ {
            assert(t[2] matches TrayEntry::Item { id: e, label: _ } && e@ == id);
        } else if id == "play_pause"@ {
            assert(t[4] matches TrayEntry::Item { id: e, label: _ } && e@ == id);
        } else if id == "previous"@ {
            assert(t[5] matches TrayEntry::Item { id: e, label: _ } && e@ == id);
        } else if id == "next"@ {
            assert(t[6] matches TrayEntry::Item { id: e, label: _ } && e@ == id);
        } else {
            assert(t[8] matches TrayEntry::Item { id: e, label: _ } && e@ == id);
        }
    }
}

} // verus!
