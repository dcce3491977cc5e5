use browsecore::watcher::{EventClass, FileWatchState, RawEventKind, DEBOUNCE_TIME};

#[test]
fn classification_keeps_three_outward_kinds() {
    assert!(matches!(FileWatchState::classify(RawEventKind::Create), Some(EventClass::Created)));
    assert!(matches!(FileWatchState::classify(RawEventKind::Remove), Some(EventClass::Deleted)));
    assert!(matches!(
        FileWatchState::classify(RawEventKind::ModifyData),
        Some(EventClass::Modified)
    ));
    // metadata-only touches and everything else are filtered out
    assert!(FileWatchState::classify(RawEventKind::ModifyMeta).is_none());
    assert!(FileWatchState::classify(RawEventKind::Other).is_none());
}

#[test]
fn start_replaces_the_session_and_resets_the_clock() {
    let mut w = FileWatchState::default();
    w.start_watching(String::from("/tmp/a"));
    assert!(w.watching);
    assert_eq!(w.root_path.as_deref(), Some("/tmp/a"));
    let accepted = w.on_event(RawEventKind::Create, 10_000);
    assert!(accepted.is_some());
    w.start_watching(String::from("/tmp/b"));
    assert!(w.watching);
    assert_eq!(w.root_path.as_deref(), Some("/tmp/b"));
    assert_eq!(w.last_event_ms, 0);
}

#[test]
fn burst_within_one_window_emits_exactly_one_event() {
    let mut w = FileWatchState::default();
    w.start_watching(String::from("/tmp/x"));
    let t0: u64 = 50_000;
    let burst = [
        (RawEventKind::ModifyMeta, t0),
        (RawEventKind::Remove, t0 + 10),
        (RawEventKind::Create, t0 + 20),
        (RawEventKind::ModifyData, t0 + 100),
        (RawEventKind::Remove, t0 + DEBOUNCE_TIME - 1),
    ];
    let mut emitted = Vec::new();
    for (kind, at) in burst {
        if let Some(c) = w.on_event(kind, at) {
            emitted.push(c);
        }
    }
    // exactly one notification, carrying the first accepted kind
    assert_eq!(emitted.len(), 1);
    assert!(matches!(emitted[0], EventClass::Deleted));
}

#[test]
fn events_past_the_window_flow_again() {
    let mut w = FileWatchState::default();
    w.start_watching(String::from("/tmp/x"));
    let t0: u64 = 50_000;
    assert!(w.on_event(RawEventKind::Create, t0).is_some());
    assert!(w.on_event(RawEventKind::ModifyData, t0 + DEBOUNCE_TIME - 1).is_none());
    let later = w.on_event(RawEventKind::ModifyData, t0 + DEBOUNCE_TIME);
    assert!(matches!(later, Some(EventClass::Modified)));
}

#[test]
fn unclassifiable_events_do_not_touch_the_debounce_clock() {
    let mut w = FileWatchState::default();
    w.start_watching(String::from("/tmp/x"));
    let t0: u64 = 50_000;
    assert!(w.on_event(RawEventKind::Create, t0).is_some());
    assert!(w.on_event(RawEventKind::ModifyMeta, t0 + 10).is_none());
    assert_eq!(w.last_event_ms, t0);
}

#[test]
fn stop_twice_succeeds_and_leaves_no_session() {
    let mut w = FileWatchState::default();
    w.start_watching(String::from("/tmp/x"));
    w.stop_watching();
    assert!(!w.watching);
    assert!(w.root_path.is_none());
    w.stop_watching();
    assert!(!w.watching);
    assert!(w.root_path.is_none());
}
