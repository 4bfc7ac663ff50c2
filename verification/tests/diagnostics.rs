//! Snapshots and what they are made of.

use draug::binary64::Binary64;
use draug::decision::RestartReason;
use draug::diagnostics::{parse_threads, proc_open_fds, proc_threads, Snapshot};
use draug::path::UnixPath;

fn text(p: &UnixPath) -> String {
    String::from_utf8(p.bytes.clone()).unwrap()
}

#[test]
fn proc_helpers_do_not_panic() {
    let read = |p: &UnixPath| {
        if text(p) == "/proc/42/status" {
            Ok("Name:\tx\nThreads:\t7\n".to_string())
        } else {
            Err(())
        }
    };
    assert_eq!(proc_threads(42, &read), Some(7));
    assert_eq!(proc_threads(43, &read), None);
    let count = |p: &UnixPath| (text(p) == "/proc/42/fd").then_some(11u64);
    assert_eq!(proc_open_fds(42, &count), Some(11));
    assert_eq!(proc_open_fds(u32::MAX, &count), None);
}

#[test]
fn first_threads_line_counts() {
    assert_eq!(parse_threads("Threads: 3\nThreads: 4\n"), Some(3));
    assert_eq!(parse_threads("Threads: x\nThreads: 4\n"), None);
    assert_eq!(parse_threads(" Threads: 3\n"), None);
    assert_eq!(parse_threads(""), None);
}

#[test]
fn snapshot_carries_reason_and_count() {
    let ratio = Binary64::from_bits(0.9f64.to_bits());
    let snap = Snapshot {
        reason: RestartReason::Memory,
        restart_count: 4,
        mem_current: Some(900),
        mem_max: Some(1000),
        mem_ratio: Some(ratio),
        cpu_quota_ratio: None,
        threads: None,
        open_fds: None,
        heartbeat_age: None,
    };
    assert_eq!(snap.reason, RestartReason::Memory);
    assert_eq!(snap.restart_count, 4);
    assert_eq!(snap.mem_ratio, Some(ratio));
    assert_eq!(snap.mem_max, Some(1000));
    assert_eq!(snap.cpu_quota_ratio, None);
}
