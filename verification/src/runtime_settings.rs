//! Which live effects a change of the application preferences calls for,
//! before it is saved, when it is rolled back, and after it is saved.
use vstd::prelude::*;

use crate::settings::{ApplicationSettings, Language};

verus! {

/// The effects to apply once changed preferences have been saved.
#[derive(Debug, Clone, Copy, PartialEq, Eq, Structural)]
pub struct CommittedEffects {
    /// The new Discord presence switch, if it changed.
    pub discord_enabled: Option<bool>,
    /// The new interface language, if it changed.
    pub language: Option<Language>,
}

/// The always-on-top state that preparing a change applies, if it changes.
pub open spec fn prepared_always_on_top(current: ApplicationSettings, updated: ApplicationSettings) -> Option<bool> {
    if current.mini_player_always_on_top != updated.mini_player_always_on_top {
        Some(updated.mini_player_always_on_top)
    } else {
        None
    }
}

/// The always-on-top state that rolling back a change restores, if any.
pub open spec fn restored_always_on_top(current: ApplicationSettings, updated: ApplicationSettings) -> Option<bool> {
    if current.mini_player_always_on_top != updated.mini_player_always_on_top {
        Some(current.mini_player_always_on_top)
    } else {
        None
    }
}

/// The effects that saving a change calls for.
pub open spec fn committed_effects(current: ApplicationSettings, updated: ApplicationSettings) -> CommittedEffects {
    CommittedEffects {
        discord_enabled: if current.discord_rich_presence_enabled
            != updated.discord_rich_presence_enabled {
            Some(updated.discord_rich_presence_enabled)
        } else {
            None
        },
        language: if current.language != updated.language {
            Some(updated.language)
        } else {
            None
        },
    }
}

/// The live side of the application preferences, holding the controller
/// of the Discord integration.
pub struct RuntimeSettings<D> {
    pub discord: D,
}

impl<D> RuntimeSettings<D> {
    pub fn new(discord: D) -> (r: Self)
        ensures
            r.discord == discord,
    {
        RuntimeSettings { discord }
    }

    /// The always-on-top state to give the Mini Player before the change is
    /// saved (the only live change that can fail), if it changes.
    pub fn prepare_change(&self, current: &ApplicationSettings, updated: &ApplicationSettings) -> (r:
        Option<bool>)
        ensures
            r == prepared_always_on_top(*current, *updated),
    {
        if current.mini_player_always_on_top != updated.mini_player_always_on_top {
            Some(updated.mini_player_always_on_top)
        } else {
            None
        }
    }

    /// The always-on-top state to restore when saving the change failed.
    pub fn rollback_change(&self, current: &ApplicationSettings, updated: &ApplicationSettings) -> (r:
        Option<bool>)
        ensures
            r == restored_always_on_top(*current, *updated),
    {
        if current.mini_player_always_on_top != updated.mini_player_always_on_top {
            Some(current.mini_player_always_on_top)
        } else {
            None
        }
    }

    /// The Discord switch and language to apply once the change is saved.
    pub fn apply_committed_change(
        &self,
        current: &ApplicationSettings,
        updated: &ApplicationSettings,
    ) -> (r: CommittedEffects)
        ensures
            r == committed_effects(*current, *updated),
    {
        let discord_enabled = if current.discord_rich_presence_enabled
            != updated.discord_rich_presence_enabled {
            Some(updated.discord_rich_presence_enabled)
        } else {
            None
        };
        let language = if current.language != updated.language {
            Some(updated.language)
        } else {
            None
        };
        CommittedEffects { discord_enabled, language }
    }
}

/// A rollback undoes exactly what the preparation did: it touches the
/// Mini Player exactly when the preparation did, and puts back the state
/// the preferences had before the change.
pub proof fn law_rollback_undoes_prepare(current: ApplicationSettings, updated: ApplicationSettings)
    ensures
        prepared_always_on_top(current, updated) is Some <==> restored_always_on_top(
            current,
            updated,
        ) is Some,
        restored_always_on_top(current, updated) matches Some(v) ==> v
            == current.mini_player_always_on_top,
        prepared_always_on_top(current, updated) matches Some(v) ==> v
            == updated.mini_player_always_on_top,
{
}

/// Unchanged preferences call for no live effect at all.
pub proof fn law_unchanged_preferences_have_no_effect(settings: ApplicationSettings)
    ensures
        prepared_always_on_top(settings, settings) is None,
        restored_always_on_top(settings, settings) is None,
        committed_effects(settings, settings) == (CommittedEffects {
            discord_enabled: None,
            language: None,
        }),
{
}

} // verus!
