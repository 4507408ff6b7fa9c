//! The privacy-mode policy engine: a fixed table from mode to capabilities,
//! and the guards that callers consult before a side effect.

use vstd::prelude::*;
use crate::state::PrivacyMode;

verus! {

/// The capabilities a mode grants, with the mode they came from.
#[derive(Debug, Clone, Copy, PartialEq, Eq, Structural)]
pub struct PrivacyPolicy {
    pub mode: PrivacyMode,
    pub allow_disk_writes: bool,
    pub allow_history: bool,
    pub allow_cache: bool,
    pub allow_cookies: bool,
    pub use_tor: bool,
    pub fingerprint_hardening: bool,
}

/// The derivation table: the one policy each mode stands for.
pub open spec fn policy_row(mode: PrivacyMode) -> PrivacyPolicy {
    match mode {
        PrivacyMode::Normal => PrivacyPolicy {
            mode,
            allow_disk_writes: true,
            allow_history: true,
            allow_cache: true,
            allow_cookies: true,
            use_tor: false,
            fingerprint_hardening: false,
        },
        PrivacyMode::Private => PrivacyPolicy {
            mode,
            allow_disk_writes: true,
            allow_history: false,
            allow_cache: false,
            allow_cookies: false,
            use_tor: false,
            fingerprint_hardening: true,
        },
        PrivacyMode::GhostMode => PrivacyPolicy {
            mode,
            allow_disk_writes: false,
            allow_history: false,
            allow_cache: false,
            allow_cookies: false,
            use_tor: true,
            fingerprint_hardening: true,
        },
    }
}

impl PrivacyPolicy {
    pub fn for_mode(mode: PrivacyMode) -> (r: Self)
        ensures
            r == policy_row(mode),
    {
        match mode {
            PrivacyMode::Normal => PrivacyPolicy {
                mode: PrivacyMode::Normal,
                allow_disk_writes: true,
                allow_history: true,
                allow_cache: true,
                allow_cookies: true,
                use_tor: false,
                fingerprint_hardening: false,
            },
            PrivacyMode::Private => PrivacyPolicy {
                mode: PrivacyMode::Private,
                allow_disk_writes: true,
                allow_history: false,
                allow_cache: false,
                allow_cookies: false,
                use_tor: false,
                fingerprint_hardening: true,
            },
            PrivacyMode::GhostMode => PrivacyPolicy {
                mode: PrivacyMode::GhostMode,
                allow_disk_writes: false,
                allow_history: false,
                allow_cache: false,
                allow_cookies: false,
                use_tor: true,
                fingerprint_hardening: true,
            },
        }
    }
}

/// A side effect that a caller saw happen against the current policy.
#[derive(Debug, Clone, Copy, PartialEq, Eq, Structural)]
pub enum PrivacyViolation {
    DiskWriteAttempted,
    HistorySaveAttempted,
    CacheWriteAttempted,
    CookieSaveAttempted,
    ClipboardPersistAttempted,
    ScreenshotAttempted,
    CrashReportAttempted,
    DNSCacheAttempted,
}

/// What the engine decided about a reported violation.
#[derive(Debug, Clone, Copy, PartialEq, Eq, Structural)]
pub enum PrivacyAction {
    Allow,
    Block,
    Warn,
    ModeDisabled,
}

/// One error kind per denied capability.
#[derive(Debug, Clone, Copy, PartialEq, Eq, Structural)]
pub enum PrivacyError {
    DiskWriteBlocked,
    HistoryBlocked,
    CacheBlocked,
    CookiesBlocked,
    ClipboardBlocked,
    ScreenshotBlocked,
    CrashReportBlocked,
    DNSCacheBlocked,
}

pub open spec fn error_message(e: PrivacyError) -> Seq<char> {
    match e {
        PrivacyError::DiskWriteBlocked => "Disk writes blocked in Ghost mode"@,
        PrivacyError::HistoryBlocked => "History saving blocked in Private/Ghost mode"@,
        PrivacyError::CacheBlocked => "Cache blocked in Private/Ghost mode"@,
        PrivacyError::CookiesBlocked => "Cookies blocked in Private/Ghost mode"@,
        PrivacyError::ClipboardBlocked => "Clipboard persistence blocked in Ghost mode"@,
        PrivacyError::ScreenshotBlocked => "Screenshots blocked in Ghost mode"@,
        PrivacyError::CrashReportBlocked => "Crash reports blocked in Ghost mode"@,
        PrivacyError::DNSCacheBlocked => "DNS cache blocked in Ghost mode"@,
    }
}

impl PrivacyError {
    /// The human-readable text of the error.
    pub fn message(&self) -> (r: &'static str)
        ensures
            r@ == error_message(*self),
    {
        match self {
            PrivacyError::DiskWriteBlocked => "Disk writes blocked in Ghost mode",
            PrivacyError::HistoryBlocked => "History saving blocked in Private/Ghost mode",
            PrivacyError::CacheBlocked => "Cache blocked in Private/Ghost mode",
            PrivacyError::CookiesBlocked => "Cookies blocked in Private/Ghost mode",
            PrivacyError::ClipboardBlocked => "Clipboard persistence blocked in Ghost mode",
            PrivacyError::ScreenshotBlocked => "Screenshots blocked in Ghost mode",
            PrivacyError::CrashReportBlocked => "Crash reports blocked in Ghost mode",
            PrivacyError::DNSCacheBlocked => "DNS cache blocked in Ghost mode",
        }
    }
}

/// Holds the current policy; its view is the active mode, and the stored
/// policy is always the table's row for that mode.
pub struct PrivacyEnforcer {
    current_policy: PrivacyPolicy,
}

impl View for PrivacyEnforcer {
    type V = PrivacyMode;

    closed spec fn view(&self) -> PrivacyMode {
        self.current_policy.mode
    }
}

/// Outcome of a guard: success when `allowed`, else the given error.
pub open spec fn guard(allowed: bool, e: PrivacyError) -> Result<(), PrivacyError> {
    if allowed {
        Ok(())
    } else {
        Err(e)
    }
}

impl PrivacyEnforcer {
    #[verifier::type_invariant]
    spec fn inv(self) -> bool {
        self.current_policy == policy_row(self.current_policy.mode)
    }

    pub fn new(initial_mode: PrivacyMode) -> (r: Self)
        ensures
            r@ == initial_mode,
    {
        PrivacyEnforcer { current_policy: PrivacyPolicy::for_mode(initial_mode) }
    }

    /// Replaces the policy with the row of `mode` and returns it.
    pub fn set_mode(&mut self, mode: PrivacyMode) -> (r: PrivacyPolicy)
        ensures
            final(self)@ == mode,
            r == policy_row(mode),
    {
        self.current_policy = PrivacyPolicy::for_mode(mode);
        self.current_policy
    }

    pub fn get_policy(&self) -> (r: &PrivacyPolicy)
        ensures
            *r == policy_row(self@),
    {
        proof {
            use_type_invariant(self);
        }
        &self.current_policy
    }

    pub fn can_write_to_disk(&self) -> (r: bool)
        ensures
            r == policy_row(self@).allow_disk_writes,
    {
        proof {
            use_type_invariant(self);
        }
        self.current_policy.allow_disk_writes
    }

    pub fn can_save_history(&self) -> (r: bool)
        ensures
            r == policy_row(self@).allow_history,
    {
        proof {
            use_type_invariant(self);
        }
        self.current_policy.allow_history
    }

    pub fn can_use_cache(&self) -> (r: bool)
        ensures
            r == policy_row(self@).allow_cache,
    {
        proof {
            use_type_invariant(self);
        }
        self.current_policy.allow_cache
    }

    pub fn can_store_cookies(&self) -> (r: bool)
        ensures
            r == policy_row(self@).allow_cookies,
    {
        proof {
            use_type_invariant(self);
        }
        self.current_policy.allow_cookies
    }

    pub fn should_use_tor(&self) -> (r: bool)
        ensures
            r == policy_row(self@).use_tor,
    {
        proof {
            use_type_invariant(self);
        }
        self.current_policy.use_tor
    }

    pub fn is_fingerprint_hardening_enabled(&self) -> (r: bool)
        ensures
            r == policy_row(self@).fingerprint_hardening,
    {
        proof {
            use_type_invariant(self);
        }
        self.current_policy.fingerprint_hardening
    }

    pub fn enforce_disk_write(&self) -> (r: Result<(), PrivacyError>)
        ensures
            r == guard(policy_row(self@).allow_disk_writes, PrivacyError::DiskWriteBlocked),
    {
        if !self.can_write_to_disk() {
            return Err(PrivacyError::DiskWriteBlocked);
        }
        Ok(())
    }

    pub fn enforce_history_save(&self) -> (r: Result<(), PrivacyError>)
        ensures
            r == guard(policy_row(self@).allow_history, PrivacyError::HistoryBlocked),
    {
        if !self.can_save_history() {
            return Err(PrivacyError::HistoryBlocked);
        }
        Ok(())
    }

    pub fn enforce_cache(&self) -> (r: Result<(), PrivacyError>)
        ensures
            r == guard(policy_row(self@).allow_cache, PrivacyError::CacheBlocked),
    {
        if !self.can_use_cache() {
            return Err(PrivacyError::CacheBlocked);
        }
        Ok(())
    }

    pub fn can_persist_clipboard(&self) -> (r: bool)
        ensures
            r == (self@ != PrivacyMode::GhostMode),
    {
        !matches!(self.current_policy.mode, PrivacyMode::GhostMode)
    }

    pub fn can_take_screenshot(&self) -> (r: bool)
        ensures
            r == (self@ != PrivacyMode::GhostMode),
    {
        !matches!(self.current_policy.mode, PrivacyMode::GhostMode)
    }

    pub fn can_send_crash_reports(&self) -> (r: bool)
        ensures
            r == (self@ != PrivacyMode::GhostMode),
    {
        !matches!(self.current_policy.mode, PrivacyMode::GhostMode)
    }

    pub fn can_cache_dns(&self) -> (r: bool)
        ensures
            r == (self@ != PrivacyMode::GhostMode),
    {
        !matches!(self.current_policy.mode, PrivacyMode::GhostMode)
    }

    pub fn enforce_clipboard_persistence(&self) -> (r: Result<(), PrivacyError>)
        ensures
            r == guard(self@ != PrivacyMode::GhostMode, PrivacyError::ClipboardBlocked),
    {
        if !self.can_persist_clipboard() {
            return Err(PrivacyError::ClipboardBlocked);
        }
        Ok(())
    }

    pub fn enforce_screenshot(&self) -> (r: Result<(), PrivacyError>)
        ensures
            r == guard(self@ != PrivacyMode::GhostMode, PrivacyError::ScreenshotBlocked),
    {
        if !self.can_take_screenshot() {
            return Err(PrivacyError::ScreenshotBlocked);
        }
        Ok(())
    }

    /// A violation in Ghost mode is critical: the engine falls back to Normal
    /// and reports `ModeDisabled`. In any other mode it only warns.
    pub fn handle_violation(&mut self, violation: PrivacyViolation) -> (r: PrivacyAction)
        ensures
            old(self)@ == PrivacyMode::GhostMode ==> r == PrivacyAction::ModeDisabled
                && final(self)@ == PrivacyMode::Normal,
            old(self)@ != PrivacyMode::GhostMode ==> r == PrivacyAction::Warn
                && final(self)@ == old(self)@,
    {
        if matches!(self.current_policy.mode, PrivacyMode::GhostMode) {
            self.set_mode(PrivacyMode::Normal);
            PrivacyAction::ModeDisabled
        } else {
            PrivacyAction::Warn
        }
    }
}

/// Setting a mode twice ends as setting it once: after either call the
/// active mode is `m` and the call hands back the same policy.
pub proof fn lemma_set_mode_idempotent(
    once: PrivacyEnforcer,
    twice: PrivacyEnforcer,
    first: PrivacyPolicy,
    second: PrivacyPolicy,
    m: PrivacyMode,
)
    requires
        once@ == m,
        first == policy_row(m),
        twice@ == m,
        second == policy_row(m),
    ensures
        once@ == twice@,
        first == second,
        policy_row(once@) == policy_row(twice@),
{
}

/// After `set_mode(m)` the policy read back is exactly the table's row for
/// `m`: disk writes unless Ghost; history, cache and cookies only in
/// Normal; onion routing only in Ghost; fingerprint hardening unless Normal.
pub proof fn lemma_policy_row(e: PrivacyEnforcer, m: PrivacyMode)
    requires
        e@ == m,
    ensures
        policy_row(e@).mode == m,
        policy_row(e@).allow_disk_writes == (m != PrivacyMode::GhostMode),
        policy_row(e@).allow_history == (m == PrivacyMode::Normal),
        policy_row(e@).allow_cache == (m == PrivacyMode::Normal),
        policy_row(e@).allow_cookies == (m == PrivacyMode::Normal),
        policy_row(e@).use_tor == (m == PrivacyMode::GhostMode),
        policy_row(e@).fingerprint_hardening == (m != PrivacyMode::Normal),
{
}

} // verus!
