use jet1090::metrics::{DfCounts, Metrics};

#[test]
fn counters_count_and_snapshot_reports_them() {
    let mut m = Metrics::new(1000);
    m.record_received();
    m.record_received();
    m.record_after_dedup();
    m.record_decode_success();
    m.record_decode_error();
    m.record_position_attempt();
    m.record_position_success();
    m.record_df(17);
    m.record_df(17);
    m.record_df(0);
    m.record_df(30);
    let s = m.snapshot(1060, 3);
    assert_eq!(s.uptime_seconds, 60);
    assert_eq!(s.active_aircraft, 3);
    assert_eq!(s.messages_received, 2);
    assert_eq!(s.messages_after_dedup, 1);
    assert_eq!(s.decode_successes, 1);
    assert_eq!(s.decode_errors, 1);
    assert_eq!(s.position_attempts, 1);
    assert_eq!(s.position_successes, 1);
    assert_eq!(
        s.df_counts,
        DfCounts {
            df0: 1,
            df4: 0,
            df5: 0,
            df11: 0,
            df16: 0,
            df17: 2,
            df18: 0,
            df19: 0,
            df20: 0,
            df21: 0,
            df24: 1,
        }
    );
}

#[test]
fn snapshots_only_read_the_counters() {
    let mut m = Metrics::new(50);
    m.record_df(21);
    m.record_decode_success();
    let a = m.snapshot(60, 1);
    let b = m.snapshot(90, 2);
    assert_eq!(a.df_counts, b.df_counts);
    assert_eq!(a.decode_successes, b.decode_successes);
    assert_eq!(a.messages_received, b.messages_received);
    assert!(a.uptime_seconds <= b.uptime_seconds);
    assert_eq!(b.df_counts.df21, 1);
}
