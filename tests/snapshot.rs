use omnibrowser_core::snapshot::{RedixRuntime, RestoreSource, SnapshotPayload};
use serde_json::Value;

fn payload(s: &str) -> SnapshotPayload {
    SnapshotPayload { state: Value::String(s.to_string()), meta: None }
}

#[test]
fn lru_demotion_order() {
    let mut rt = RedixRuntime::new(2, 1_000_000_000);
    assert!(rt.snapshot_tab("a".to_string(), payload("A"), 1).evicted.is_none());
    assert!(rt.snapshot_tab("b".to_string(), payload("B"), 2).evicted.is_none());
    let r = rt.snapshot_tab("c".to_string(), payload("C"), 3);
    assert_eq!(r.evicted.as_deref(), Some("a"));
    assert_eq!(r.stored_in, "hot");
    assert_eq!((r.hot_entries, r.cold_entries), (2, 1));
    assert_eq!(rt.stats().eviction_count, 1);
}

#[test]
fn promotion_on_restore() {
    let mut rt = RedixRuntime::new(2, 1_000_000_000);
    rt.snapshot_tab("a".to_string(), payload("A"), 1);
    rt.snapshot_tab("b".to_string(), payload("B"), 2);
    rt.snapshot_tab("c".to_string(), payload("C"), 3);
    let r = rt.restore_tab("a".to_string()).unwrap();
    assert_eq!(r.source, RestoreSource::ColdPromotedWithEviction);
    assert_eq!(r.source.as_str(), "cold.promoted-with-eviction");
    assert_eq!(r.state, Value::String("A".to_string()));
    let s = rt.stats();
    assert_eq!((s.hot_entries, s.cold_entries, s.eviction_count), (2, 1, 2));
    assert_eq!(rt.restore_tab("c".to_string()).unwrap().source, RestoreSource::Hot);
    assert_eq!(rt.restore_tab("b".to_string()).unwrap().source, RestoreSource::ColdPromotedWithEviction);
}

#[test]
fn cold_trim_drops_oldest() {
    let mut rt = RedixRuntime::new(1, 10);
    let big = 400_000;
    rt.snapshot_tab_sized("x".to_string(), payload("x"), big, 1);
    rt.snapshot_tab_sized("y".to_string(), payload("y"), big, 2);
    rt.snapshot_tab_sized("z".to_string(), payload("z"), big, 3);
    let s = rt.stats();
    assert_eq!((s.hot_entries, s.cold_entries, s.cold_bytes, s.eviction_count), (1, 2, 800_000, 2));
    rt.snapshot_tab_sized("w".to_string(), payload("w"), big, 4);
    let s = rt.stats();
    assert_eq!((s.cold_entries, s.cold_bytes, s.eviction_count), (2, 800_000, 3));
    assert!(rt.restore_tab("x".to_string()).is_none());
    assert_eq!(rt.restore_tab("y".to_string()).unwrap().source, RestoreSource::ColdPromotedWithEviction);
}

#[test]
fn json_size_is_serialised_length() {
    let mut rt = RedixRuntime::new(1, 0);
    rt.snapshot_tab("a".to_string(), payload("abcdef"), 1);
    let r = rt.snapshot_tab("b".to_string(), payload("B"), 2);
    assert_eq!(r.cold_bytes, 8);
}

#[test]
fn capture_then_restore_returns_state() {
    let mut rt = RedixRuntime::new(3, 0);
    let meta = Value::String("title".to_string());
    rt.snapshot_tab("k".to_string(), SnapshotPayload { state: Value::Bool(true), meta: Some(meta.clone()) }, 5);
    let r = rt.restore_tab("k".to_string()).unwrap();
    assert_eq!(r.tab_id, "k");
    assert_eq!(r.state, Value::Bool(true));
    assert_eq!(r.meta, Some(meta));
    assert_eq!(r.source, RestoreSource::Hot);
    assert_eq!(r.source.as_str(), "hot");
}

#[test]
fn recapture_replaces_cold_copy() {
    let mut rt = RedixRuntime::new(1, 0);
    rt.snapshot_tab("a".to_string(), payload("old"), 1);
    rt.snapshot_tab("b".to_string(), payload("B"), 2);
    rt.snapshot_tab("a".to_string(), payload("new"), 3);
    let s = rt.stats();
    assert_eq!((s.hot_entries, s.cold_entries), (1, 1));
    let r = rt.restore_tab("a".to_string()).unwrap();
    assert_eq!(r.state, Value::String("new".to_string()));
    assert_eq!(r.source, RestoreSource::Hot);
}

#[test]
fn clear_zeroes_counters() {
    let mut rt = RedixRuntime::new(1, 5_000_000);
    rt.snapshot_tab("a".to_string(), payload("A"), 1);
    rt.snapshot_tab("b".to_string(), payload("B"), 2);
    rt.save_context("k".to_string(), Value::Null, 3);
    rt.clear();
    let s = rt.stats();
    assert_eq!((s.hot_entries, s.cold_entries, s.cold_bytes, s.eviction_count), (0, 0, 0, 0));
    assert_eq!((s.max_hot_entries, s.cold_budget_bytes), (1, 5_000_000));
    assert!(rt.fetch_context(&"k".to_string()).is_none());
}

#[test]
fn zero_bounds_are_raised() {
    let mut rt = RedixRuntime::new(0, 0);
    let s = rt.stats();
    assert_eq!((s.max_hot_entries, s.cold_budget_bytes), (1, 1_000_000));
    rt.snapshot_tab("a".to_string(), payload("A"), 1);
    let r = rt.snapshot_tab("b".to_string(), payload("B"), 2);
    assert_eq!(r.evicted.as_deref(), Some("a"));
    assert_eq!(rt.restore_tab("a".to_string()).unwrap().source, RestoreSource::ColdPromotedWithEviction);
}

#[test]
fn oversized_demotion_is_dropped() {
    let mut rt = RedixRuntime::new(1, 0);
    rt.snapshot_tab_sized("small".to_string(), payload("s"), 10, 1);
    rt.snapshot_tab_sized("huge".to_string(), payload("h"), 2_000_000, 2);
    rt.snapshot_tab_sized("next".to_string(), payload("n"), 10, 3);
    let s = rt.stats();
    assert_eq!((s.cold_entries, s.cold_bytes, s.eviction_count), (0, 0, 2));
    assert!(rt.restore_tab("huge".to_string()).is_none());
}

#[test]
fn unknown_restore_is_none() {
    let mut rt = RedixRuntime::new(2, 0);
    assert!(rt.restore_tab("nope".to_string()).is_none());
}

#[test]
fn hits_count_hot_restores() {
    let mut rt = RedixRuntime::new(2, 0);
    rt.snapshot_tab("a".to_string(), payload("A"), 1);
    for _ in 0..3 {
        assert_eq!(rt.restore_tab("a".to_string()).unwrap().source, RestoreSource::Hot);
    }
    assert_eq!(rt.stats().eviction_count, 0);
}

#[test]
fn context_overwrite() {
    let mut rt = RedixRuntime::new(2, 0);
    rt.save_context("k".to_string(), Value::String("v1".to_string()), 10);
    rt.save_context("k".to_string(), Value::String("v2".to_string()), 20);
    let c = rt.fetch_context(&"k".to_string()).unwrap();
    assert_eq!(c.value, Value::String("v2".to_string()));
    assert_eq!(c.updated_at, 20);
    assert!(rt.fetch_context(&"other".to_string()).is_none());
}
