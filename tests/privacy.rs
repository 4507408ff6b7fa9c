use omnibrowser_core::privacy::{PrivacyAction, PrivacyEnforcer, PrivacyError, PrivacyPolicy, PrivacyViolation};
use omnibrowser_core::state::PrivacyMode;

fn row(p: &PrivacyPolicy) -> [bool; 6] {
    [p.allow_disk_writes, p.allow_history, p.allow_cache, p.allow_cookies, p.use_tor, p.fingerprint_hardening]
}

#[test]
fn policy_table_rows() {
    let mut e = PrivacyEnforcer::new(PrivacyMode::Normal);
    assert_eq!(row(&e.set_mode(PrivacyMode::Normal)), [true, true, true, true, false, false]);
    assert_eq!(row(e.get_policy()), [true, true, true, true, false, false]);
    e.set_mode(PrivacyMode::Private);
    assert_eq!(row(e.get_policy()), [true, false, false, false, false, true]);
    assert_eq!(e.get_policy().mode, PrivacyMode::Private);
    e.set_mode(PrivacyMode::GhostMode);
    assert_eq!(row(e.get_policy()), [false, false, false, false, true, true]);
}

#[test]
fn set_mode_twice_is_set_mode_once() {
    let mut a = PrivacyEnforcer::new(PrivacyMode::Normal);
    let mut b = PrivacyEnforcer::new(PrivacyMode::Normal);
    let p1 = a.set_mode(PrivacyMode::Private);
    let p2 = a.set_mode(PrivacyMode::Private);
    let q = b.set_mode(PrivacyMode::Private);
    assert_eq!(p1, p2);
    assert_eq!(p2, q);
    assert_eq!(*a.get_policy(), *b.get_policy());
}

#[test]
fn ghost_blocks_disk() {
    let mut e = PrivacyEnforcer::new(PrivacyMode::Normal);
    e.set_mode(PrivacyMode::GhostMode);
    assert_eq!(e.enforce_disk_write(), Err(PrivacyError::DiskWriteBlocked));
    e.set_mode(PrivacyMode::Normal);
    assert_eq!(e.enforce_disk_write(), Ok(()));
}

#[test]
fn violation_auto_reverts_ghost() {
    let mut e = PrivacyEnforcer::new(PrivacyMode::Normal);
    e.set_mode(PrivacyMode::GhostMode);
    assert_eq!(e.handle_violation(PrivacyViolation::DiskWriteAttempted), PrivacyAction::ModeDisabled);
    assert_eq!(e.get_policy().mode, PrivacyMode::Normal);
    assert_eq!(e.handle_violation(PrivacyViolation::DiskWriteAttempted), PrivacyAction::Warn);
    assert_eq!(e.get_policy().mode, PrivacyMode::Normal);
}

#[test]
fn each_guard_reports_its_error() {
    let e = PrivacyEnforcer::new(PrivacyMode::GhostMode);
    assert_eq!(e.enforce_history_save(), Err(PrivacyError::HistoryBlocked));
    assert_eq!(e.enforce_cache(), Err(PrivacyError::CacheBlocked));
    assert_eq!(e.enforce_clipboard_persistence(), Err(PrivacyError::ClipboardBlocked));
    assert_eq!(e.enforce_screenshot(), Err(PrivacyError::ScreenshotBlocked));
    assert!(!e.can_persist_clipboard() && !e.can_take_screenshot() && !e.can_send_crash_reports() && !e.can_cache_dns());
    assert!(e.should_use_tor() && e.is_fingerprint_hardening_enabled());
    let p = PrivacyEnforcer::new(PrivacyMode::Private);
    assert_eq!(p.enforce_disk_write(), Ok(()));
    assert_eq!(p.enforce_history_save(), Err(PrivacyError::HistoryBlocked));
    assert_eq!(p.enforce_clipboard_persistence(), Ok(()));
    assert!(p.can_write_to_disk() && !p.can_save_history() && !p.can_use_cache() && !p.can_store_cookies());
    assert_eq!(PrivacyError::CacheBlocked.message(), "Cache blocked in Private/Ghost mode");
}
