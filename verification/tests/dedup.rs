use lead_lag::notify::dedup::TradeDedup;

#[test]
fn test_no_duplicate_open_alert() {
    let mut dedup = TradeDedup::new();
    assert!(dedup.should_alert_open(1));
    assert!(!dedup.should_alert_open(1)); // Duplicate suppressed
}

#[test]
fn test_no_duplicate_close_alert() {
    let mut dedup = TradeDedup::new();
    assert!(dedup.should_alert_close(1));
    assert!(!dedup.should_alert_close(1)); // Duplicate suppressed
}

#[test]
fn test_close_removes_from_opens() {
    let mut dedup = TradeDedup::new();
    dedup.should_alert_open(1);
    dedup.should_alert_close(1);
    // After close, the open record is cleaned up
    // (new position with same ID would be allowed)
    assert!(dedup.should_alert_open(1));
}

#[test]
fn test_different_positions() {
    let mut dedup = TradeDedup::new();
    assert!(dedup.should_alert_open(1));
    assert!(dedup.should_alert_open(2));
    assert!(!dedup.should_alert_open(1));
}

#[test]
fn test_cleanup() {
    let mut dedup = TradeDedup::new();
    dedup.should_alert_close(1);
    dedup.should_alert_close(2);
    dedup.cleanup();
    // After cleanup, close alerts can re-fire
    assert!(dedup.should_alert_close(1));
}
