use omnibrowser_core::llama::LlamaModelManager;
use omnibrowser_core::shortcuts::GlobalShortcutService;
use omnibrowser_core::stability::{MemoryGuard, SafeMode, Watchdog};
use omnibrowser_core::state::{AppMode, AppSettings, AppState, PrivacyMode};

#[test]
fn safe_mode_threshold() {
    let mut s = SafeMode::new(2);
    s.record_crash();
    assert!(!s.is_enabled() && !s.should_enable());
    s.record_crash();
    assert!(s.is_enabled() && s.should_enable());
    assert_eq!(s.get_crash_count(), 2);
    s.reset_crash_count();
    assert!(!s.is_enabled() && s.get_crash_count() == 0);
}

#[test]
fn memory_guard_low_ram_halves() {
    let mut g = MemoryGuard::new(300, 1000);
    assert_eq!((g.get_freeze_threshold(), g.get_memory_threshold(), g.get_max_tabs()), (300, 1000, 15));
    assert!(g.should_freeze_tab_at(0, false, 301));
    assert!(!g.should_freeze_tab_at(0, false, 300));
    assert!(!g.should_freeze_tab_at(0, true, 10_000));
    g.set_low_ram_mode(true);
    assert!(g.get_low_ram_mode());
    assert_eq!((g.get_freeze_threshold(), g.get_memory_threshold(), g.get_max_tabs()), (150, 500, 5));
    assert!(g.should_freeze_tab_at(0, false, 151));
    assert!(!g.should_freeze_tab(i64::MAX, true));
    let w = Watchdog::new(1000, 5000);
    assert_eq!((w.get_check_interval(), w.get_response_timeout()), (1000, 5000));
}

#[test]
fn app_state_settings() {
    let mut s = AppState::new();
    assert_eq!(s.get_language(), "en");
    assert_eq!(s.set_language("hi".to_string()), Ok(()));
    assert_eq!(s.get_language(), "hi");
    assert_eq!(s.set_language("abcdefghijk".to_string()), Err("Language code too long".to_string()));
    assert_eq!(s.get_language(), "hi");
    s.set_privacy_mode(PrivacyMode::Private);
    assert_eq!(s.get_privacy_mode(), PrivacyMode::Private);
    s.set_active_mode(AppMode::Docs);
    assert_eq!(s.get_active_mode(), AppMode::Docs);
    s.set_low_ram_mode(true);
    assert!(s.get_low_ram_mode());
    s.update_settings(AppSettings::default());
    assert_eq!(s.get_settings().language, "en");
    assert!(!s.get_low_ram_mode());
}

#[test]
fn llama_manager_caps() {
    let mut m = LlamaModelManager::new();
    assert!(!m.is_loaded());
    assert_eq!(m.get_memory_usage_mb(), 0);
    m.load_model_with("m.gguf".to_string(), Some(100), 7).unwrap();
    assert!(m.is_loaded());
    assert_eq!(m.get_memory_usage_mb(), 200);
    m.set_threads(64);
    m.set_context_size(100_000);
    let info = m.get_model_info().unwrap();
    assert_eq!((info.n_threads, info.context_size), (Some(8), Some(4096)));
    m.unload_model().unwrap();
    assert!(m.get_model_info().is_none());
}

#[test]
fn shortcuts_register_and_clear() {
    let mut s = GlobalShortcutService::new();
    s.register_app_wake(false).unwrap();
    s.register_app_wake(true).unwrap();
    assert_eq!(s.list_shortcuts(), vec!["ctrl+space".to_string(), "cmd+space".to_string()]);
    s.unregister_all().unwrap();
    assert!(s.list_shortcuts().is_empty());
}
