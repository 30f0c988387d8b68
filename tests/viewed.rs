use czytaj::ViewedLedger;

#[test]
fn marked_article_is_viewed() {
    let mut l = ViewedLedger::new();
    assert!(!l.is_viewed("https://e.com/a"));
    l.mark_viewed("https://e.com/a", "A", 100);
    assert!(l.is_viewed("https://e.com/a"));
    assert!(!l.is_viewed("https://e.com/a/"));
    assert!(!l.is_viewed("HTTPS://e.com/a"));
}

#[test]
fn remarking_keeps_one_record_with_the_last_title() {
    let mut l = ViewedLedger::new();
    l.mark_viewed("a", "first", 1);
    l.mark_viewed("a", "second", 2);
    assert!(l.is_viewed("a"));
    assert_eq!(l.list_viewed(), vec!["a".to_string()]);
    assert_eq!(l.title_of("a"), Some("second".to_string()));
}

#[test]
fn most_recent_first() {
    let mut l = ViewedLedger::new();
    l.mark_viewed("a", "A", 10);
    l.mark_viewed("b", "B", 10);
    assert_eq!(l.list_viewed(), vec!["b".to_string(), "a".to_string()]);
    l.mark_viewed("a", "A", 11);
    assert_eq!(l.list_viewed(), vec!["a".to_string(), "b".to_string()]);
}

#[test]
fn older_timestamps_go_behind_newer_ones() {
    let mut l = ViewedLedger::new();
    l.mark_viewed("new", "N", 50);
    l.mark_viewed("old", "O", 20);
    l.mark_viewed("mid", "M", 30);
    assert_eq!(l.list_viewed(), vec!["new".to_string(), "mid".to_string(), "old".to_string()]);
}

#[test]
fn empty_ledger_lists_nothing() {
    assert!(ViewedLedger::new().list_viewed().is_empty());
}
