use omnibrowser_core::browser::{TabManager, TabUpdate};
use omnibrowser_core::state::{AppMode, PrivacyMode};

#[test]
fn create_activates_only_new_tab() {
    let mut m = TabManager::new(3);
    let a = m.create_tab("https://a.test".to_string(), PrivacyMode::Normal, AppMode::Browse).unwrap();
    let b = m.create_tab("https://b.test".to_string(), PrivacyMode::GhostMode, AppMode::Research).unwrap();
    assert!(a.starts_with("tab-") && b.starts_with("tab-") && a != b);
    let tb = m.get_tab(&b).unwrap();
    assert!(tb.is_active);
    assert_eq!(tb.title, "New Tab");
    assert_eq!(tb.privacy_mode, "ghost");
    assert_eq!(tb.app_mode, "Research");
    assert!(!m.get_tab(&a).unwrap().is_active);
    assert_eq!(m.get_active_tab().unwrap().id, b);
    assert_eq!(m.list_tabs().len(), 2);
}

#[test]
fn delete_active_moves_activity() {
    let mut m = TabManager::new(3);
    let a = m.create_tab_with("a".to_string(), "u".to_string(), PrivacyMode::Normal, AppMode::Browse, 5);
    let b = m.create_tab_with("b".to_string(), "u".to_string(), PrivacyMode::Normal, AppMode::Browse, 6);
    assert_eq!(m.delete_tab(&b), Ok(()));
    assert!(m.get_tab(&a).unwrap().is_active);
    assert_eq!(m.get_active_tab().unwrap().id, "a");
    assert_eq!(m.delete_tab("b"), Err("Tab b not found".to_string()));
    assert_eq!(m.delete_tab("a"), Ok(()));
    assert!(m.get_active_tab().is_none());
}

#[test]
fn update_and_flags() {
    let mut m = TabManager::new(2);
    m.create_tab_with("t".to_string(), "u".to_string(), PrivacyMode::Normal, AppMode::Browse, 1);
    let upd = TabUpdate::new().with_url("v".to_string()).with_title("T".to_string()).with_privacy_mode(PrivacyMode::Private);
    assert_eq!(m.update_tab_at("t", upd, 9), Ok(()));
    let t = m.get_tab("t").unwrap();
    assert_eq!((t.url.as_str(), t.title.as_str(), t.privacy_mode.as_str(), t.last_active_at), ("v", "T", "private", 9));
    assert_eq!(m.update_tab("zz", TabUpdate::new()), Err("Tab zz not found".to_string()));
    m.freeze_tab("t").unwrap();
    assert!(m.get_tab("t").unwrap().is_sleeping);
    m.set_active_tab_at("t", 11).unwrap();
    let t = m.get_tab("t").unwrap();
    assert!(!t.is_sleeping && t.is_active && t.last_active_at == 11);
    m.pin_tab("t", true).unwrap();
    assert!(m.get_tab("t").unwrap().is_pinned);
    assert_eq!(m.record_tab_crash("t"), Ok(false));
    assert_eq!(m.record_tab_crash("t"), Ok(true));
    m.reset_crash_count("t").unwrap();
    assert_eq!(m.get_tab("t").unwrap().crash_count, 0);
    m.unfreeze_tab("t").unwrap();
    assert_eq!(m.freeze_tab("nope"), Err("Tab nope not found".to_string()));
}

#[test]
fn session_restore_reactivates_saved_tab() {
    let mut m = TabManager::new(3);
    m.create_tab_with("a".to_string(), "ua".to_string(), PrivacyMode::Normal, AppMode::Browse, 1);
    m.create_tab_with("b".to_string(), "ub".to_string(), PrivacyMode::Normal, AppMode::Browse, 2);
    let saved = m.list_tabs();
    let mut fresh = TabManager::new(3);
    fresh.create_tab_with("z".to_string(), "uz".to_string(), PrivacyMode::Normal, AppMode::Browse, 3);
    fresh.restore_tabs(saved, Some("a".to_string()));
    assert_eq!(fresh.list_tabs().len(), 2);
    assert!(fresh.get_tab("z").is_none());
    assert!(fresh.get_tab("a").unwrap().is_active);
    assert_eq!(fresh.get_active_tab().unwrap().id, "a");
    let mut keep = TabManager::new(3);
    keep.create_tab_with("k".to_string(), "uk".to_string(), PrivacyMode::Normal, AppMode::Browse, 4);
    keep.restore_tabs(Vec::new(), None);
    assert!(keep.list_tabs().is_empty());
    assert!(keep.get_active_tab().is_none());
}
