use nixbuilder::record::{LogFilter, LogMessage};
use nixbuilder::timestamp::Timestamp;

fn msg(secs: i64, nanos: u32) -> LogMessage {
    LogMessage {
        source: "c1".to_string(),
        timestamp: Timestamp { secs, nanos },
        text: "x".to_string(),
    }
}

#[test]
fn window_bounds_are_inclusive() {
    let f = LogFilter {
        start_time: Timestamp { secs: 100, nanos: 0 },
        end_time: Timestamp { secs: 200, nanos: 0 },
    };
    assert!(f.matches(&msg(100, 0)));
    assert!(f.matches(&msg(200, 0)));
    assert!(f.matches(&msg(150, 999_999_999)));
    assert!(!f.matches(&msg(99, 999_999_999)));
    assert!(!f.matches(&msg(200, 1)));
}

#[test]
fn point_window_matches_exact_instant() {
    let t = Timestamp { secs: 1704067205, nanos: 250_000_000 };
    let f = LogFilter { start_time: t, end_time: t };
    assert!(f.matches(&msg(1704067205, 250_000_000)));
    assert!(!f.matches(&msg(1704067205, 250_000_001)));
    assert!(!f.matches(&msg(1704067204, 999_999_999)));
}

#[test]
fn inverted_window_matches_nothing() {
    let f = LogFilter {
        start_time: Timestamp { secs: 200, nanos: 0 },
        end_time: Timestamp { secs: 100, nanos: 0 },
    };
    assert!(!f.matches(&msg(150, 0)));
    assert!(!f.matches(&msg(100, 0)));
    assert!(!f.matches(&msg(200, 0)));
}

#[test]
fn widening_the_window_keeps_matches() {
    let narrow = LogFilter {
        start_time: Timestamp { secs: 100, nanos: 0 },
        end_time: Timestamp { secs: 200, nanos: 0 },
    };
    let wide = LogFilter {
        start_time: Timestamp { secs: 50, nanos: 0 },
        end_time: Timestamp { secs: 300, nanos: 0 },
    };
    for secs in [100i64, 137, 200] {
        let m = msg(secs, 0);
        assert!(narrow.matches(&m));
        assert!(wide.matches(&m));
    }
}

#[test]
fn nanoseconds_order_within_a_second() {
    let a = Timestamp { secs: 10, nanos: 5 };
    let b = Timestamp { secs: 10, nanos: 6 };
    let c = Timestamp { secs: 11, nanos: 0 };
    assert!(a.le(&b));
    assert!(!b.le(&a));
    assert!(b.le(&c));
    assert!(a.le(&a));
}
