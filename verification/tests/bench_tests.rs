//! The client's side, and the latencies.

use bstk::latency::{percentile, Op, Recorder};
use bstk::reply::{parse_reply_line, stats_str, stats_u64, Reply};
use std::time::Duration;

#[test]
fn parses_replies() {
    assert_eq!(parse_reply_line(b"INSERTED 42"), Reply::Inserted(42));
    assert_eq!(
        parse_reply_line(b"RESERVED 7 16"),
        Reply::Reserved {
            id: 7,
            body_len: 16
        }
    );
    assert_eq!(parse_reply_line(b"DELETED"), Reply::Deleted);
    assert_eq!(parse_reply_line(b"TIMED_OUT"), Reply::TimedOut);
    assert_eq!(parse_reply_line(b"AUTHENTICATED"), Reply::Authenticated);
    assert_eq!(parse_reply_line(b"USING foo"), Reply::Using);
    assert_eq!(parse_reply_line(b"WATCHING 2"), Reply::Watching(2));
    assert_eq!(parse_reply_line(b"OK 900"), Reply::OkBody(900));
}

#[test]
fn malformed_replies_are_other() {
    for line in [
        &b"INSERTED"[..],
        b"INSERTED x",
        b"INSERTED 1 2",
        b"DELETED 1",
        b"RESERVED 1",
        b"NOT_FOUND",
        b"",
    ] {
        assert!(
            matches!(parse_reply_line(line), Reply::Other(_)),
            "{:?}",
            String::from_utf8_lossy(line)
        );
    }
}

#[test]
fn parses_stats_yaml() {
    let yaml = "---\ncurrent-jobs-ready: 3\ncurrent-jobs-reserved: 0\nrusage-utime: 1.250000\nid: abc\n";
    assert_eq!(stats_u64(yaml, "current-jobs-ready"), Some(3));
    assert_eq!(stats_u64(yaml, "current-jobs-reserved"), Some(0));
    let utime: Option<f64> = stats_str(yaml, "rusage-utime").and_then(|v| v.parse().ok());
    assert_eq!(utime, Some(1.25));
    assert_eq!(stats_u64(yaml, "id"), None);
    assert_eq!(stats_u64(yaml, "missing"), None);
    assert_eq!(stats_u64(yaml, "current-jobs"), None);
}

#[test]
fn percentiles_use_nearest_rank() {
    let v: Vec<u64> = (1..=1000).collect();
    assert_eq!(percentile(&v, 500), 500);
    assert_eq!(percentile(&v, 990), 990);
    assert_eq!(percentile(&v, 999), 999);
    assert_eq!(percentile(&[5], 999), 5);
}

#[test]
fn merge_and_summary() {
    let mut a = Recorder::default();
    let mut b = Recorder::default();
    a.record(Op::Put, Duration::from_nanos(30).as_nanos());
    b.record(Op::Put, Duration::from_nanos(10).as_nanos());
    b.record(Op::Delete, Duration::from_nanos(20).as_nanos());
    a.merge(b);
    assert_eq!(a.count(Op::Put), 2);
    assert_eq!(a.total(), 3);
    let s = a.summary(Op::Put).unwrap();
    assert_eq!((s.p50, s.max), (10, 30));
    assert!(a.summary(Op::Reserve).is_none());
}
