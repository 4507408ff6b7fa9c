//! Application-wide settings and the modes the shell can run in.

use vstd::prelude::*;
use vstd::string::StringExecFns;
use crate::text::utf8_len;

verus! {

/// The three privacy modes; exactly one is active at a time.
#[derive(Debug, Clone, Copy, PartialEq, Eq, Structural)]
pub enum PrivacyMode {
    Normal,
    Private,
    GhostMode,
}

/// The application mode a tab or the whole shell is in.
#[derive(Debug, Clone, Copy, PartialEq, Eq, Structural)]
pub enum AppMode {
    Browse,
    Research,
    Trade,
    Games,
    Docs,
    Images,
    Threats,
    GraphMind,
}

/// What the shell does at start-up.
#[derive(Debug, Clone, Copy, PartialEq, Eq, Structural)]
pub enum StartupBehavior {
    NewTab,
    Restore,
}

/// Longest language code, in bytes, that the settings accept.
pub const MAX_LANGUAGE_BYTES: usize = 10;

/// User settings.
#[derive(Debug)]
pub struct AppSettings {
    pub language: String,
    pub default_mode: AppMode,
    pub startup_behavior: StartupBehavior,
    pub telemetry_opt_in: bool,
    pub privacy_mode: PrivacyMode,
    pub low_ram_mode: bool,
}

impl Clone for AppSettings {
    fn clone(&self) -> (r: Self)
        ensures
            r == *self,
    {
        AppSettings {
            language: self.language.clone(),
            default_mode: self.default_mode,
            startup_behavior: self.startup_behavior,
            telemetry_opt_in: self.telemetry_opt_in,
            privacy_mode: self.privacy_mode,
            low_ram_mode: self.low_ram_mode,
        }
    }
}

impl Default for AppSettings {
    fn default() -> (r: Self)
        ensures
            r.language@ == "en"@,
            r.default_mode == AppMode::Browse,
            r.startup_behavior == StartupBehavior::NewTab,
            !r.telemetry_opt_in,
            r.privacy_mode == PrivacyMode::Normal,
            !r.low_ram_mode,
    {
        AppSettings {
            language: String::from_str("en"),
            default_mode: AppMode::Browse,
            startup_behavior: StartupBehavior::NewTab,
            telemetry_opt_in: false,
            privacy_mode: PrivacyMode::Normal,
            low_ram_mode: false,
        }
    }
}

/// State owned by the shell: settings, the active application mode and the
/// identifier of the active tab.
pub struct AppState {
    pub settings: AppSettings,
    pub active_mode: AppMode,
    pub active_tab_id: Option<String>,
}

impl AppState {
    pub fn new() -> (r: Self)
        ensures
            r.settings.language@ == "en"@,
            r.settings.default_mode == AppMode::Browse,
            r.settings.startup_behavior == StartupBehavior::NewTab,
            !r.settings.telemetry_opt_in,
            r.settings.privacy_mode == PrivacyMode::Normal,
            !r.settings.low_ram_mode,
            r.active_mode == AppMode::Browse,
            r.active_tab_id.is_none(),
    {
        AppState { settings: AppSettings::default(), active_mode: AppMode::Browse, active_tab_id: None }
    }

    pub fn get_language(&self) -> (r: String)
        ensures
            r@ == self.settings.language@,
    {
        self.settings.language.clone()
    }

    /// Sets the language code; one longer than ten bytes is refused and the
    /// settings stay as they were.
    pub fn set_language(&mut self, language: String) -> (r: Result<(), String>)
        ensures
            r.is_ok() <==> utf8_len(language@) <= MAX_LANGUAGE_BYTES,
            r.is_err() ==> r->Err_0@ == "Language code too long"@ && *final(self) == *old(self),
            r.is_ok() ==> final(self).settings == (AppSettings { language, ..old(self).settings })
                && final(self).active_mode == old(self).active_mode
                && final(self).active_tab_id == old(self).active_tab_id,
    {
        if language.as_str().len() > MAX_LANGUAGE_BYTES {
            return Err(String::from_str("Language code too long"));
        }
        self.settings.language = language;
        Ok(())
    }

    pub fn get_privacy_mode(&self) -> (r: PrivacyMode)
        ensures
            r == self.settings.privacy_mode,
    {
        self.settings.privacy_mode
    }

    pub fn set_privacy_mode(&mut self, mode: PrivacyMode)
        ensures
            final(self).settings == (AppSettings { privacy_mode: mode, ..old(self).settings }),
            final(self).active_mode == old(self).active_mode,
            final(self).active_tab_id == old(self).active_tab_id,
    {
        self.settings.privacy_mode = mode;
    }

    pub fn get_active_mode(&self) -> (r: AppMode)
        ensures
            r == self.active_mode,
    {
        self.active_mode
    }

    pub fn set_active_mode(&mut self, mode: AppMode)
        ensures
            *final(self) == (AppState { active_mode: mode, ..*old(self) }),
    {
        self.active_mode = mode;
    }

    pub fn get_settings(&self) -> (r: AppSettings)
        ensures
            r == self.settings,
    {
        self.settings.clone()
    }

    pub fn update_settings(&mut self, updates: AppSettings)
        ensures
            *final(self) == (AppState { settings: updates, ..*old(self) }),
    {
        self.settings = updates;
    }

    pub fn get_low_ram_mode(&self) -> (r: bool)
        ensures
            r == self.settings.low_ram_mode,
    {
        self.settings.low_ram_mode
    }

    pub fn set_low_ram_mode(&mut self, enabled: bool)
        ensures
            final(self).settings == (AppSettings { low_ram_mode: enabled, ..old(self).settings }),
            final(self).active_mode == old(self).active_mode,
            final(self).active_tab_id == old(self).active_tab_id,
    {
        self.settings.low_ram_mode = enabled;
    }
}

} // verus!
