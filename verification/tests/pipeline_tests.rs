use nixbuilder::errors::RunError;
use nixbuilder::pipeline::{run_events, PipelineConfig, SourceEvent};
use nixbuilder::record::LogFilter;
use nixbuilder::timestamp::Timestamp;

fn config(start_secs: i64, end_secs: i64) -> PipelineConfig {
    PipelineConfig {
        source: "c1".to_string(),
        filter: LogFilter {
            start_time: Timestamp { secs: start_secs, nanos: 0 },
            end_time: Timestamp { secs: end_secs, nanos: 0 },
        },
        broker_address: "redpanda:18081".to_string(),
        topic: "logs_topic".to_string(),
        store_connection: "tcp://clickhouse:8123".to_string(),
        table_name: "logs".to_string(),
    }
}

fn line(s: &str) -> SourceEvent {
    SourceEvent::Line(s.to_string())
}

#[test]
fn scenario_one_match_one_malformed_one_filtered() {
    // window [2024-01-01T00:00:00Z, 2024-01-01T00:00:10Z]
    let cfg = config(1704067200, 1704067210);
    let events = vec![
        line("2024-01-01T00:00:05Z hello"),
        line("not-a-timestamp broken"),
        line("2024-01-01T00:00:15Z world"),
    ];
    let report = run_events(&cfg, &events, &vec![], &vec![], 0);
    assert_eq!(report.broker_attempts, vec!["c1 2024-01-01T00:00:05+00:00 hello".to_string()]);
    assert_eq!(report.broker_delivered, report.broker_attempts);
    assert_eq!(report.store_attempts.len(), 1);
    assert_eq!(report.store_attempts[0].source, "c1");
    assert_eq!(report.store_attempts[0].timestamp_secs, 1704067205);
    assert_eq!(report.store_attempts[0].text, "hello");
    assert_eq!(report.store_delivered.len(), 1);
    assert_eq!(report.live_records.len(), 1);
    assert_eq!(report.live_records[0].text, "hello");
    assert_eq!(report.errors, vec![RunError::MalformedLine]);
}

#[test]
fn malformed_line_does_not_abort_later_lines() {
    let cfg = config(0, 10_000_000_000);
    let events = vec![
        line("2024-01-01T00:00:01Z a"),
        line("2024-01-01T00:00:02Z b"),
        line("garbage"),
        line("2024-01-01T00:00:03Z c"),
        line("2024-01-01T00:00:04Z d"),
    ];
    let report = run_events(&cfg, &events, &vec![], &vec![], 0);
    assert_eq!(report.live_records.len(), 4);
    let texts: Vec<&str> = report.live_records.iter().map(|m| m.text.as_str()).collect();
    assert_eq!(texts, vec!["a", "b", "c", "d"]);
    assert_eq!(report.errors, vec![RunError::MalformedLine]);
}

#[test]
fn read_failure_is_reported_and_survived() {
    let cfg = config(0, 10_000_000_000);
    let events = vec![
        line("2024-01-01T00:00:01Z a"),
        SourceEvent::ReadFailure,
        line("2024-01-01T00:00:02Z b"),
    ];
    let report = run_events(&cfg, &events, &vec![], &vec![], 0);
    assert_eq!(report.live_records.len(), 2);
    assert_eq!(report.errors, vec![RunError::ReadFailed]);
}

#[test]
fn broker_failure_does_not_block_store() {
    let cfg = config(0, 10_000_000_000);
    let events = vec![line("2024-01-01T00:00:01Z a"), line("2024-01-01T00:00:02Z b")];
    // the broker rejects the first record; the store stays healthy
    let report = run_events(&cfg, &events, &vec![false], &vec![], 0);
    assert_eq!(report.broker_attempts.len(), 2);
    assert_eq!(report.broker_delivered.len(), 1);
    assert!(report.broker_delivered[0].ends_with(" b"));
    assert_eq!(report.store_delivered.len(), 2);
    assert_eq!(report.store_delivered[0].text, "a");
    assert_eq!(report.store_delivered[1].text, "b");
    assert_eq!(report.errors, vec![RunError::BrokerWriteFailed]);
}

#[test]
fn store_outage_does_not_block_broker_and_is_never_retried() {
    let cfg = config(0, 10_000_000_000);
    let events = vec![line("2024-01-01T00:00:01Z a"), line("2024-01-01T00:00:02Z b")];
    // the store is unavailable for the whole run
    let report = run_events(&cfg, &events, &vec![], &vec![false, false], 0);
    assert_eq!(report.broker_delivered.len(), 2);
    assert_eq!(report.store_delivered.len(), 0);
    // one attempt per record, none queued or repeated
    assert_eq!(report.store_attempts.len(), 2);
    assert_eq!(report.errors, vec![RunError::StoreWriteFailed, RunError::StoreWriteFailed]);
}

#[test]
fn both_sinks_see_records_in_source_order() {
    let cfg = config(0, 10_000_000_000);
    let events = vec![
        line("2024-01-01T00:00:03Z first"),
        line("2024-01-01T00:00:01Z second"),
        line("garbage"),
        line("2024-01-01T00:00:02Z third"),
    ];
    let report = run_events(&cfg, &events, &vec![], &vec![], 0);
    let broker_texts: Vec<String> = report
        .broker_attempts
        .iter()
        .map(|p| p.rsplit(' ').next().unwrap().to_string())
        .collect();
    let store_texts: Vec<&str> = report.store_attempts.iter().map(|r| r.text.as_str()).collect();
    assert_eq!(broker_texts, vec!["first", "second", "third"]);
    assert_eq!(store_texts, vec!["first", "second", "third"]);
    let live_texts: Vec<&str> = report.live_records.iter().map(|m| m.text.as_str()).collect();
    assert_eq!(live_texts, vec!["first", "second", "third"]);
}

#[test]
fn store_row_keeps_utc_offset_metadata() {
    let cfg = config(0, 10_000_000_000);
    let events = vec![line("2024-01-01T00:00:01Z a")];
    let report = run_events(&cfg, &events, &vec![], &vec![], 3600);
    assert_eq!(report.store_attempts[0].utc_offset_secs, 3600);
    assert_eq!(report.store_attempts[0].timestamp_secs, 1704067201);
}

#[test]
fn point_window_admits_exact_instant() {
    let cfg = config(1704067205, 1704067205);
    let events = vec![
        line("2024-01-01T00:00:05Z exact"),
        line("2024-01-01T00:00:04Z early"),
        line("2024-01-01T00:00:06Z late"),
    ];
    let report = run_events(&cfg, &events, &vec![], &vec![], 0);
    assert_eq!(report.live_records.len(), 1);
    assert_eq!(report.live_records[0].text, "exact");
}
