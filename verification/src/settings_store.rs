//! The settings held in memory: how a settings file read at startup is
//! turned into the starting settings, and how changes are committed only
//! after they have been validated and written.
use vstd::prelude::*;

use crate::settings::{
    law_defaults_are_valid, law_validation_accepts_exactly_valid_shortcuts,
    lemma_default_shortcuts_valid, AppSettings, ShortcutSettings,
};
use crate::text::concat_str;

verus! {

/// What reading the settings file gave.
pub enum SettingsFileRead {
    /// There is no settings file.
    Missing,
    /// The file exists but could not be read; the reason.
    Unreadable(String),
    /// The file is not valid settings JSON; the parser's message.
    Malformed(String),
    /// The settings the file holds.
    Parsed(AppSettings),
}

/// The settings a store starts with after `read`.
pub open spec fn loaded_settings(read: SettingsFileRead) -> Option<AppSettings> {
    match read {
        SettingsFileRead::Parsed(s) => if s.problem() is None {
            Some(s)
        } else {
            None
        },
        _ => None,
    }
}

/// The warning reported after `read`, if any.
pub open spec fn load_warning(read: SettingsFileRead) -> Option<Seq<char>> {
    match read {
        SettingsFileRead::Missing => None,
        SettingsFileRead::Unreadable(e) => Some("failed to read settings; using defaults: "@ + e@),
        SettingsFileRead::Malformed(e) => Some("settings JSON is invalid; using defaults: "@ + e@),
        SettingsFileRead::Parsed(s) => match s.problem() {
            Some(m) => Some("settings are invalid; using defaults: "@ + m),
            None => None,
        },
    }
}

/// The settings in memory.
pub struct SettingsStore {
    settings: AppSettings,
}

impl SettingsStore {
    /// The settings the store holds.
    pub closed spec fn settings(self) -> AppSettings {
        self.settings
    }

    /// A store only ever holds settings that pass validation.
    #[verifier::type_invariant]
    spec fn holds_valid_settings(self) -> bool {
        self.settings.problem() is None
    }

    /// Starts from the file's settings when they are valid and from the
    /// defaults otherwise, with a warning unless the file is simply missing.
    pub fn load_with_diagnostics(read: SettingsFileRead) -> (r: (Self, Option<String>))
        ensures
            match loaded_settings(read) {
                Some(s) => r.0.settings() == s,
                None => r.0.settings().is_default(),
            },
            match load_warning(read) {
                Some(w) => r.1 matches Some(x) && x@ == w,
                None => r.1 is None,
            },
    {
        let (settings, warning) = match read {
            SettingsFileRead::Missing => (AppSettings::default(), None),
            SettingsFileRead::Unreadable(error) => (
                AppSettings::default(),
                Some(concat_str("failed to read settings; using defaults: ", error.as_str())),
            ),
            SettingsFileRead::Malformed(error) => (
                AppSettings::default(),
                Some(concat_str("settings JSON is invalid; using defaults: ", error.as_str())),
            ),
            SettingsFileRead::Parsed(settings) => match settings.validate() {
                Ok(()) => (settings, None),
                Err(error) => (
                    AppSettings::default(),
                    Some(concat_str("settings are invalid; using defaults: ", error.as_str())),
                ),
            },
        };
        proof {
            if settings.is_default() {
                law_defaults_are_valid(settings);
            }
        }
        (SettingsStore { settings }, warning)
    }

    /// `load_with_diagnostics` without the warning.
    pub fn load(read: SettingsFileRead) -> (r: Self)
        ensures
            match loaded_settings(read) {
                Some(s) => r.settings() == s,
                None => r.settings().is_default(),
            },
    {
        Self::load_with_diagnostics(read).0
    }

    /// A copy of the settings.
    pub fn snapshot(&self) -> (r: AppSettings)
        ensures
            r == self.settings(),
            r.problem() is None,
    {
        proof {
            use_type_invariant(self);
        }
        self.settings.clone()
    }

    /// Commits `settings` if they are valid and `written`, the outcome of
    /// writing them to the settings file, succeeded. A rejected replacement
    /// leaves the store unchanged.
    pub fn replace(&mut self, settings: AppSettings, written: Result<(), String>) -> (r: Result<
        (),
        String,
    >)
        ensures
            match settings.problem() {
                Some(m) => r matches Err(e) && e@ == m,
                None => match written {
                    Ok(()) => r is Ok,
                    Err(w) => r matches Err(e) && e@ == w@,
                },
            },
            r is Ok ==> final(self).settings() == settings,
            r is Err ==> final(self).settings() == old(self).settings(),
    {
        match settings.validate() {
            Err(error) => {
                return Err(error);
            },
            Ok(()) => {},
        }
        match written {
            Err(error) => {
                return Err(error);
            },
            Ok(()) => {},
        }
        self.settings = settings;
        Ok(())
    }

    /// `replace`, returning the committed settings.
    pub fn update(&mut self, updated: AppSettings, written: Result<(), String>) -> (r: Result<
        AppSettings,
        String,
    >)
        ensures
            match updated.problem() {
                Some(m) => r matches Err(e) && e@ == m,
                None => match written {
                    Ok(()) => r is Ok,
                    Err(w) => r matches Err(e) && e@ == w@,
                },
            },
            r matches Ok(s) ==> s == updated && final(self).settings() == updated,
            r is Err ==> final(self).settings() == old(self).settings(),
    {
        let copy = updated.clone();
        match self.replace(updated, written) {
            Ok(()) => Ok(copy),
            Err(error) => Err(error),
        }
    }

    /// Resets the settings in memory to the defaults, whatever happens to the
    /// file, and returns them to be written.
    pub fn recover_defaults(&mut self) -> (r: AppSettings)
        ensures
            r.is_default(),
            final(self).settings() == r,
    {
        let defaults = AppSettings::default();
        proof {
            law_defaults_are_valid(defaults);
        }
        self.settings = defaults.clone();
        defaults
    }

    /// Resets only the shortcuts to their defaults, keeping the application
    /// preferences and schema version, and returns the settings to be
    /// written.
    pub fn recover_shortcut_defaults(&mut self) -> (r: AppSettings)
        ensures
            r.application == old(self).settings().application,
            r.schema_version == old(self).settings().schema_version,
            r.shortcuts.texts() == crate::settings::default_shortcut_texts(),
            final(self).settings() == r,
    {
        proof {
            use_type_invariant(&*self);
            lemma_default_shortcuts_valid();
        }
        let mut recovered = self.settings.clone();
        recovered.shortcuts = ShortcutSettings::default();
        proof {
            law_validation_accepts_exactly_valid_shortcuts(recovered.shortcuts);
        }
        self.settings = recovered.clone();
        recovered
    }
}

} // verus!
