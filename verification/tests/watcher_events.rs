use space_cmd::watcher::FileWatcher;

#[test]
fn first_sight_of_a_file_emits_nothing() {
    let mut w = FileWatcher::new("/sessions".to_string());
    w.note_file("provider", "sess1", "/sessions/provider/sess1.jsonl", 10, "");
    assert!(w.try_recv().is_none());
    assert_eq!(w.tracked_size("/sessions/provider/sess1.jsonl"), Some(10));
    assert_eq!(w.tracked_size("/sessions/other"), None);
}

#[test]
fn growth_queues_one_event_per_nonempty_line() {
    let mut w = FileWatcher::new("/sessions".to_string());
    let path = "/sessions/provider/sess1.jsonl";
    w.note_file("provider", "sess1", path, 10, "");
    w.note_file("provider", "sess1", path, 30, "line one\n\nline two\n");
    let first = w.try_recv().expect("first event");
    assert_eq!(first.provider, "provider");
    assert_eq!(first.session_id, "sess1");
    assert_eq!(first.line, "line one");
    let second = w.try_recv().expect("second event");
    assert_eq!(second.line, "line two");
    assert!(w.try_recv().is_none());
    assert_eq!(w.tracked_size(path), Some(30));
}

#[test]
fn unchanged_size_emits_nothing() {
    let mut w = FileWatcher::new("/sessions".to_string());
    let path = "/s/p/x.jsonl";
    w.note_file("p", "x", path, 20, "");
    w.note_file("p", "x", path, 20, "should not appear\n");
    assert!(w.try_recv().is_none());
}
