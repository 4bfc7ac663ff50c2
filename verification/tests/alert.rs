//! Classification and the alert queue.

use draug::alert::{
    classify, payload, reason_name, AlertQueue, AlertSink, Field, NullSink, Severity, Work, ALERT_QUEUE_CAPACITY,
};
use draug::binary64::Binary64;
use draug::decision::RestartReason;
use draug::diagnostics::Snapshot;
use draug::time::Duration;

fn snap(reason: RestartReason) -> Snapshot {
    Snapshot {
        reason,
        restart_count: 1,
        mem_current: Some(900),
        mem_max: Some(1000),
        mem_ratio: Some(Binary64::from_bits(0.9f64.to_bits())),
        cpu_quota_ratio: None,
        threads: None,
        open_fds: None,
        heartbeat_age: None,
    }
}

fn fill(q: &mut AlertQueue, n: usize, severity: Severity) {
    for _ in 0..n {
        q.send(true, &snap(RestartReason::Memory), severity);
    }
}

fn drain(q: &mut AlertQueue) -> Vec<(RestartReason, Severity)> {
    q.close();
    let mut out = Vec::new();
    loop {
        match q.take() {
            Work::Deliver(s, sev) => out.push((s.reason, sev)),
            Work::Exit => return out,
            Work::Wait => panic!("a closed queue never waits"),
        }
    }
}

#[test]
fn classification_matrix() {
    assert_eq!(classify(RestartReason::Periodic, false, false), None);
    assert_eq!(classify(RestartReason::HeartbeatStale, false, false), None);
    assert_eq!(classify(RestartReason::Crash, false, false), None);
    assert_eq!(
        classify(RestartReason::Memory, false, false),
        Some(Severity::Warning)
    );
    assert_eq!(
        classify(RestartReason::Psi, false, false),
        Some(Severity::Warning)
    );
    assert_eq!(
        classify(RestartReason::Periodic, true, false),
        Some(Severity::Critical)
    );
    assert_eq!(
        classify(RestartReason::Crash, false, true),
        Some(Severity::Critical)
    );
}

#[test]
fn null_sink_is_noop() {
    NullSink.send(&snap(RestartReason::Periodic), Severity::Warning);
}

#[test]
fn shutdown_is_only_logged() {
    assert_eq!(classify(RestartReason::Shutdown, false, false), None);
    assert_eq!(
        classify(RestartReason::Shutdown, true, false),
        Some(Severity::Critical)
    );
}

#[test]
fn webhook_bounded_queue_drops_warning_when_saturated() {
    let mut q = AlertQueue::new();
    fill(&mut q, ALERT_QUEUE_CAPACITY, Severity::Warning);
    assert_eq!(q.dropped, 0, "filling exactly to capacity must not drop");
    let extra = 50;
    fill(&mut q, extra, Severity::Warning);
    assert_eq!(q.dropped, extra as u64);
    assert_eq!(q.items.len(), ALERT_QUEUE_CAPACITY);
}

#[test]
fn webhook_critical_survives_saturation() {
    let mut q = AlertQueue::new();
    fill(&mut q, ALERT_QUEUE_CAPACITY, Severity::Warning);
    let sent = q.send(true, &snap(RestartReason::Crash), Severity::Critical);
    assert!(sent.notify);
    assert_eq!(q.dropped, 1, "exactly one Warning is evicted");
    let delivered = drain(&mut q);
    assert_eq!(delivered.len(), ALERT_QUEUE_CAPACITY);
    let criticals = delivered
        .iter()
        .filter(|(_, sev)| *sev == Severity::Critical)
        .count();
    assert_eq!(criticals, 1);
}

#[test]
fn webhook_critical_evicts_oldest_warning() {
    let mut q = AlertQueue::new();
    q.send(true, &snap(RestartReason::Memory), Severity::Warning);
    let first = match q.take() {
        Work::Deliver(s, sev) => (s.reason, sev),
        other => panic!("{other:?}"),
    };
    fill(&mut q, ALERT_QUEUE_CAPACITY, Severity::Warning);
    q.send(true, &snap(RestartReason::Crash), Severity::Critical);
    let mut delivered = vec![first];
    delivered.extend(drain(&mut q));
    let count = |severity: Severity| delivered.iter().filter(|(_, sev)| *sev == severity).count();
    assert_eq!(count(Severity::Warning), ALERT_QUEUE_CAPACITY);
    assert_eq!(count(Severity::Critical), 1);
}

#[test]
fn eviction_takes_the_oldest_warning_and_no_critical() {
    let mut q = AlertQueue::new();
    q.send(true, &snap(RestartReason::Crash), Severity::Critical);
    q.send(true, &snap(RestartReason::Psi), Severity::Warning);
    fill(&mut q, ALERT_QUEUE_CAPACITY - 2, Severity::Warning);
    q.send(true, &snap(RestartReason::Crash), Severity::Critical);
    let delivered = drain(&mut q);
    assert_eq!(delivered[0], (RestartReason::Crash, Severity::Critical));
    assert!(!delivered.contains(&(RestartReason::Psi, Severity::Warning)));
    let warnings = delivered
        .iter()
        .filter(|(_, sev)| *sev == Severity::Warning)
        .count();
    assert_eq!(warnings, ALERT_QUEUE_CAPACITY - 2);
}

#[test]
fn webhook_delivers_multiple_sends() {
    let mut q = AlertQueue::new();
    q.send(true, &snap(RestartReason::Memory), Severity::Warning);
    q.send(true, &snap(RestartReason::Psi), Severity::Warning);
    q.send(true, &snap(RestartReason::Crash), Severity::Critical);
    assert_eq!(
        drain(&mut q),
        vec![
            (RestartReason::Memory, Severity::Warning),
            (RestartReason::Psi, Severity::Warning),
            (RestartReason::Crash, Severity::Critical),
        ]
    );
}

#[test]
fn webhook_drop_flushes_final_critical() {
    let mut q = AlertQueue::new();
    q.send(true, &snap(RestartReason::Memory), Severity::Warning);
    q.send(true, &snap(RestartReason::Psi), Severity::Warning);
    q.send(true, &snap(RestartReason::Crash), Severity::Critical);
    q.close();
    let delivered = drain(&mut q);
    assert_eq!(delivered.len(), 3, "closing must flush all queued alerts");
    assert!(
        delivered.iter().any(|(_, sev)| *sev == Severity::Critical),
        "the final Critical must be flushed"
    );
    assert_eq!(delivered[2], (RestartReason::Crash, Severity::Critical));
    assert!(matches!(q.take(), Work::Exit));
}

#[test]
fn a_full_count_matters_only_to_a_full_queue() {
    let mut q = AlertQueue::new();
    q.dropped = u64::MAX;
    let sent = q.send(true, &snap(RestartReason::Memory), Severity::Warning);
    assert!(sent.notify);
    q.send(false, &snap(RestartReason::Memory), Severity::Warning);
    assert_eq!((q.dropped, q.items.len()), (u64::MAX, 1));
}

#[test]
fn webhook_worker_death_is_logged_once() {
    let mut q = AlertQueue::new();
    assert!(!q.death_logged);
    let sent = q.send(false, &snap(RestartReason::Crash), Severity::Critical);
    assert!(q.death_logged);
    assert_eq!(
        sent.log.unwrap(),
        "draug: webhook alert worker is not running; alerts will not be delivered"
    );
    for _ in 0..10 {
        let sent = q.send(false, &snap(RestartReason::Memory), Severity::Warning);
        assert!(sent.log.is_none());
        assert!(!sent.notify);
    }
    assert!(q.death_logged);
    assert!(q.items.is_empty());
}

#[test]
fn shedding_is_logged_at_powers_of_two() {
    let mut q = AlertQueue::new();
    fill(&mut q, ALERT_QUEUE_CAPACITY, Severity::Warning);
    let mut logged = Vec::new();
    for n in 1..=20u64 {
        let sent = q.send(true, &snap(RestartReason::Memory), Severity::Warning);
        assert!(!sent.notify);
        if let Some(line) = sent.log {
            logged.push(n);
            assert_eq!(
                line,
                format!("draug: webhook alert queue full, dropping Warning alert (total dropped: {n})")
            );
        }
    }
    assert_eq!(logged, vec![1, 2, 4, 8, 16]);
}

#[test]
fn a_lost_critical_is_always_logged() {
    let mut q = AlertQueue::new();
    fill(&mut q, ALERT_QUEUE_CAPACITY, Severity::Critical);
    for n in 1..=3 {
        let sent = q.send(true, &snap(RestartReason::Crash), Severity::Critical);
        assert!(!sent.notify);
        assert_eq!(
            sent.log.unwrap(),
            format!(
                "draug: webhook alert queue full of undelivered Critical alerts; \
                 dropping a Critical (total dropped: {n})"
            )
        );
    }
    assert_eq!(q.items.len(), ALERT_QUEUE_CAPACITY);
}

#[test]
fn eviction_is_logged() {
    let mut q = AlertQueue::new();
    fill(&mut q, ALERT_QUEUE_CAPACITY, Severity::Warning);
    let sent = q.send(true, &snap(RestartReason::Crash), Severity::Critical);
    assert_eq!(
        sent.log.unwrap(),
        "draug: webhook alert queue full, evicted a Warning to admit a Critical (total dropped: 1)"
    );
}

#[test]
fn worker_waits_until_closed() {
    let mut q = AlertQueue::new();
    assert_eq!(q.take(), Work::Wait);
    q.send(true, &snap(RestartReason::Psi), Severity::Warning);
    assert_eq!(
        q.take(),
        Work::Deliver(snap(RestartReason::Psi), Severity::Warning)
    );
    q.close();
    assert_eq!(q.take(), Work::Exit);
}

#[test]
fn payload_tells_what_the_snapshot_holds() {
    let mut shot = snap(RestartReason::Memory);
    shot.heartbeat_age = Some(Duration::from_secs(3));
    let p = payload(
        &shot,
        Severity::Warning,
        &Some("svc".to_string()),
        &None,
    );
    let names: Vec<&str> = p.iter().map(|(name, _)| *name).collect();
    assert_eq!(
        names,
        vec![
            "service",
            "env",
            "severity",
            "reason",
            "restart_count",
            "mem_current",
            "mem_max",
            "mem_ratio",
            "cpu_quota_ratio",
            "threads",
            "open_fds",
            "heartbeat_age_secs",
        ]
    );
    assert!(matches!(&p[0].1, Field::Text(s) if s == "svc"));
    assert!(matches!(p[1].1, Field::Null));
    assert!(matches!(&p[2].1, Field::Text(s) if s == "warning"));
    assert!(matches!(&p[3].1, Field::Text(s) if s == "Memory"));
    assert!(matches!(p[4].1, Field::Count(1)));
    assert!(matches!(p[5].1, Field::Count(900)));
    assert!(matches!(p[6].1, Field::Count(1000)));
    assert!(matches!(p[7].1, Field::Number(x) if x.bits == 0.9f64.to_bits()));
    assert!(matches!(p[8].1, Field::Null));
    assert!(matches!(p[11].1, Field::Seconds(d) if d == Duration::from_secs(3)));
    for reason in [
        RestartReason::Periodic,
        RestartReason::Memory,
        RestartReason::Psi,
        RestartReason::HeartbeatStale,
        RestartReason::Crash,
        RestartReason::Shutdown,
    ] {
        assert_eq!(reason_name(reason), format!("{reason:?}"));
    }
    assert_eq!(Severity::Critical.as_str(), "critical");
}

#[test]
fn alerts_keep_their_order_and_are_accounted_for() {
    let mut q = AlertQueue::new();
    let mut sent: Vec<u64> = Vec::new();
    let mut delivered: Vec<u64> = Vec::new();
    for n in 0..1000u64 {
        let severity = if n % 7 == 0 {
            Severity::Critical
        } else {
            Severity::Warning
        };
        let mut s = snap(RestartReason::Memory);
        s.restart_count = n;
        q.send(true, &s, severity);
        sent.push(n);
        if n % 3 == 0 {
            if let Work::Deliver(s, _) = q.take() {
                delivered.push(s.restart_count);
            }
        }
        assert!(q.items.len() <= ALERT_QUEUE_CAPACITY);
        assert_eq!(
            sent.len() as u64,
            delivered.len() as u64 + q.items.len() as u64 + q.dropped
        );
    }
    q.close();
    while let Work::Deliver(s, _) = q.take() {
        delivered.push(s.restart_count);
    }
    assert!(delivered.windows(2).all(|w| w[0] < w[1]));
    let criticals = delivered.iter().filter(|n| **n % 7 == 0).count();
    assert_eq!(criticals, 143);
}
