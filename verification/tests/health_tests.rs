use metaproxy::health::{PoolStats, RequestWindow, WINDOW_NANOS};

#[test]
fn recorded_requests_are_counted_for_a_minute() {
    let mut w = RequestWindow::new();
    w.record_request(10);
    w.record_request(20);
    assert_eq!(w.requests_last_minute(20), 2);
    assert_eq!(w.requests_last_minute(10 + WINDOW_NANOS), 2);
    assert_eq!(w.requests_last_minute(11 + WINDOW_NANOS), 1);
    assert_eq!(w.requests_last_minute(21 + WINDOW_NANOS), 0);
}

#[test]
fn recording_forgets_old_requests() {
    let mut w = RequestWindow::new();
    w.record_request(0);
    w.record_request(5);
    w.record_request(WINDOW_NANOS + 3);
    assert_eq!(w.requests_last_minute(WINDOW_NANOS + 3), 2);
    assert_eq!(w.requests_last_minute(0), 2);
}

#[test]
fn pool_stats_hold_their_figures() {
    let stats = PoolStats { active_connections: 0, idle_connections: 0 };
    assert_eq!(stats.active_connections + stats.idle_connections, 0);
}

#[test]
fn recording_adds_one_to_the_count_at_that_moment() {
    let mut w = RequestWindow::new();
    w.record_request(1);
    w.record_request(2 * WINDOW_NANOS);
    let before = w.requests_last_minute(3 * WINDOW_NANOS);
    w.record_request(3 * WINDOW_NANOS);
    assert_eq!(w.requests_last_minute(3 * WINDOW_NANOS), before + 1);
    assert_eq!(before, 1);
}
