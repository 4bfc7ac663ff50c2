//! The decisions of the event loop.

use draug::alert::{AlertQueue, Severity};
use draug::binary64::Binary64;
use draug::cgroup::{read_memory_max, CgroupPaths, CgroupVersion, MemorySample, ReadError};
use draug::child::{exit_status_from_code, exit_status_signaled};
use draug::config::{Cli, Config, EnvVars, PsiTrigger};
use draug::decision::{HeartbeatInput, RestartReason};
use draug::diagnostics::Snapshot;
use draug::fsm::{Action, Event, GracefulKind, Samples, State};
use draug::heartbeat::HeartbeatAge;
use draug::log::LogLevel;
use draug::path::UnixPath;
use draug::psi::PsiHandle;
use draug::supervisor::{
    crash_loop_message, crash_message, disable_psi, heartbeat_input, initial_psi_reopen_budget,
    limit_at_startup, limit_attempts, limit_step, logfmt_value, maybe_reopen_psi, mem_sample,
    psi_ready_is_fatal, read_mem_max_with_retry, reap_step, reap_with_retry, refresh_mem_limit,
    resolved_message, restart_message, sample, should_attempt_psi_reopen, signal_event, snapshot,
    spawn_failed_message, spawned_message, state_implies_live_child, target_label, timespec,
    unkillable_message, Command, LimitStep, ReapOutcome, ReapStep, Supervisor, TimerSpec, Waited, PSI_REOPEN_ATTEMPTS, REAP_EINTR_RETRIES,
};
use draug::time::Duration;
use nix::sys::epoll::EpollFlags;
use nix::sys::signal::Signal;
use std::cell::{Cell, RefCell};

fn f(x: f64) -> Binary64 {
    Binary64::from_bits(x.to_bits())
}

fn number(s: &str) -> Option<Binary64> {
    s.parse::<f64>().ok().map(f)
}

fn text(p: &UnixPath) -> String {
    String::from_utf8(p.bytes.clone()).unwrap()
}

fn cgroup_v2() -> CgroupPaths {
    CgroupPaths {
        version: CgroupVersion::V2,
        memory_dir: UnixPath::new("/cg"),
        cpu_dir: UnixPath::new("/cg"),
    }
}

fn files(max: &str, current: Option<&str>) -> Vec<(String, String)> {
    let mut v = vec![
        ("/cg/memory.max".to_string(), format!("{max}\n")),
        ("/cg/cpu.max".to_string(), "50000 100000\n".to_string()),
        (
            "/cg/memory.pressure".to_string(),
            "some avg10=20.0 avg60=0 avg300=0 total=0\n".to_string(),
        ),
        ("/proc/7/status".to_string(), "Threads:\t3\n".to_string()),
    ];
    if let Some(c) = current {
        v.push(("/cg/memory.current".to_string(), format!("{c}\n")));
    }
    v
}

fn find(files: &[(String, String)], p: &UnixPath) -> Result<String, ()> {
    files
        .iter()
        .find(|(name, _)| *name == text(p))
        .map(|(_, content)| content.clone())
        .ok_or(())
}

fn mem(max: &str, current: Option<&str>, cached: Option<u64>, recover: bool) -> Option<MemorySample> {
    let files = files(max, current);
    mem_sample(&cgroup_v2(), cached, recover, &|p: &UnixPath| find(&files, p))
}

fn limit(max: &str, attempts: u32, retry_on_none: bool) -> Result<Option<u64>, ReadError<()>> {
    let files = files(max, Some("100"));
    let cg = cgroup_v2();
    read_mem_max_with_retry(
        |_| read_memory_max(&cg, &|p: &UnixPath| find(&files, p)),
        |_| {},
        attempts,
        retry_on_none,
    )
}

fn cli() -> Cli {
    Cli {
        restart_interval: "0".into(),
        mem_threshold: "0".into(),
        psi_trigger: "".into(),
        graceful_signal: "TERM".into(),
        grace_period: "90s".into(),
        tick: "2s".into(),
        heartbeat_file: None,
        heartbeat_max_age: "60s".into(),
        startup_grace: "15s".into(),
        max_failures: 3,
        backoff: "5s".into(),
        cgroup_root: UnixPath::new("/cg"),
        log_level: "info".into(),
        log_timestamps: false,
        target: vec!["true".to_string()],
    }
}

fn config(cli: Cli) -> Config {
    Config::build(cli, EnvVars::default(), &number).unwrap()
}

fn snap(reason: RestartReason) -> Snapshot {
    Snapshot {
        reason,
        restart_count: 1,
        mem_current: Some(900),
        mem_max: Some(1000),
        mem_ratio: None,
        cpu_quota_ratio: None,
        threads: None,
        open_fds: None,
        heartbeat_age: None,
    }
}

#[test]
fn retry_on_persistent_none_when_threshold_configured() {
    assert!(matches!(limit("max", 1, true), Ok(None)));
}

#[test]
fn finite_limit_returned_with_retry_on_none() {
    assert_eq!(limit("4096", 3, true).unwrap(), Some(4096));
}

#[test]
fn none_accepted_at_once_without_threshold() {
    assert_eq!(limit("max", 1, false).unwrap(), None);
}

#[test]
fn read_failure_surfaces_as_err() {
    let cg = cgroup_v2();
    let got = read_mem_max_with_retry(
        |_| read_memory_max(&cg, &|_: &UnixPath| Err::<String, ()>(())),
        |_| {},
        1,
        true,
    );
    assert!(got.is_err());
}

#[test]
fn limit_is_retried_with_pauses_between() {
    let calls = RefCell::new(Vec::new());
    let got = read_mem_max_with_retry(
        |left| {
            calls.borrow_mut().push(("read", left));
            if left > 0 {
                Ok::<Option<u64>, ()>(None)
            } else {
                Ok(Some(64))
            }
        },
        |left| calls.borrow_mut().push(("pause", left)),
        3,
        true,
    );
    assert_eq!(got, Ok(Some(64)));
    assert_eq!(
        calls.into_inner(),
        [
            ("read", 2),
            ("pause", 2),
            ("read", 1),
            ("pause", 1),
            ("read", 0)
        ]
    );
    let mut reads = 0;
    let mut pauses = 0;
    let got = read_mem_max_with_retry(
        |_| {
            reads += 1;
            Err::<Option<u64>, u32>(reads)
        },
        |_| pauses += 1,
        0,
        false,
    );
    assert_eq!(got, Err(1));
    assert_eq!((reads, pauses), (1, 0));
}

#[test]
fn missing_limit_is_warned_about_only_with_a_threshold() {
    let dir = UnixPath::new("/my cg");
    let (limit, warning) = limit_at_startup(Ok(Some(5)), true, &dir);
    assert_eq!((limit, warning), (Some(5), None));
    let (limit, warning) = limit_at_startup(Ok(None), false, &dir);
    assert_eq!((limit, warning), (None, None));
    let (limit, warning) = limit_at_startup(Ok(None), true, &dir);
    assert_eq!(limit, None);
    assert_eq!(
        warning.unwrap(),
        "event=mem-limit-unavailable detail=\"cgroup reports no memory limit at startup; \
         --mem-threshold cannot fire until a limit appears (retried each tick)\""
    );
    let (_, warning) = limit_at_startup(Err("oops".into()), false, &dir);
    assert_eq!(warning, None);
    let (_, warning) = limit_at_startup(Err("oops".into()), true, &dir);
    assert_eq!(
        warning.unwrap(),
        "event=mem-limit-unreadable error=oops path=\"/my cg\" detail=\"--mem-threshold \
         cannot fire until the limit becomes readable (retried each tick)\""
    );
}

#[test]
fn reap_retries_eintr_then_observes_exit() {
    let mut calls = 0;
    let (got, _) = reap_with_retry(
        |_| {
            calls += 1;
            if calls == 1 {
                Waited::Interrupted
            } else {
                Waited::Exited(exit_status_from_code(0))
            }
        },
        REAP_EINTR_RETRIES,
    );
    assert_eq!(got, ReapOutcome::Exited);
    assert_eq!(calls, 2, "must retry exactly once after EINTR");
}

#[test]
fn reap_maps_clean_exit_to_exited_code_independent() {
    for code in [0, 137] {
        let status = exit_status_from_code(code);
        let (got, log) = reap_with_retry(|_| Waited::Exited(status), REAP_EINTR_RETRIES);
        assert_eq!(got, ReapOutcome::Exited);
        assert!(log.is_none());
    }
}

#[test]
fn reap_maps_signalled_exit_to_exited() {
    let signalled = exit_status_signaled(Signal::SIGKILL as i32);
    let (got, log) = reap_with_retry(|_| Waited::Exited(signalled), REAP_EINTR_RETRIES);
    assert_eq!(got, ReapOutcome::Exited);
    assert!(log.is_none());
}

#[test]
fn reap_is_told_how_many_attempts_are_left() {
    let mut told = Vec::new();
    let (got, _) = reap_with_retry(
        |left| {
            told.push(left);
            Waited::Interrupted
        },
        2,
    );
    assert_eq!(got, ReapOutcome::Inconclusive);
    assert_eq!(told, [2, 1, 0]);
}

#[test]
fn reap_returns_running_immediately_when_still_running() {
    let mut calls = 0;
    let (got, _) = reap_with_retry(
        |_| {
            calls += 1;
            Waited::Running
        },
        REAP_EINTR_RETRIES,
    );
    assert_eq!(got, ReapOutcome::Running);
    assert_eq!(calls, 1, "a running target must not be retried");
}

#[test]
fn reap_gives_up_to_inconclusive_when_eintr_persists() {
    let mut calls = 0;
    let cap = 3;
    let (got, log) = reap_with_retry(
        |_| {
            calls += 1;
            Waited::Interrupted
        },
        cap,
    );
    assert_eq!(got, ReapOutcome::Inconclusive);
    assert_eq!(calls, cap + 1, "must stop after cap + 1 attempts");
    assert_eq!(
        log.unwrap(),
        "event=reap-inconclusive detail=\"interrupted past retry cap\""
    );
}

#[test]
fn reap_non_eintr_error_is_inconclusive_without_retry() {
    let mut calls = 0;
    let (got, log) = reap_with_retry(
        |_| {
            calls += 1;
            Waited::Failed("InvalidInput".into())
        },
        REAP_EINTR_RETRIES,
    );
    assert_eq!(got, ReapOutcome::Inconclusive);
    assert_eq!(calls, 1, "a non-EINTR error must not retry");
    assert_eq!(log.unwrap(), "event=reap-error error=InvalidInput");
}

#[test]
fn mem_sample_recovers_limit_when_cache_none() {
    let s = mem("1000", Some("850"), None, true).expect("current readable");
    assert_eq!(s.current, 850);
    assert_eq!(s.max, Some(1000));
    assert_eq!(s.ratio(), Some(f(0.85)));
}

#[test]
fn mem_sample_keeps_cache_none_on_hot_path() {
    let s = mem("1000", Some("850"), None, false).expect("current readable");
    assert_eq!(s.current, 850);
    assert_eq!(s.max, None);
    assert_eq!(s.ratio(), None);
}

#[test]
fn mem_sample_uses_cached_limit_verbatim() {
    let s = mem("max", Some("256"), Some(512), true).expect("current readable");
    assert_eq!(s.current, 256);
    assert_eq!(s.max, Some(512));
    assert_eq!(s.ratio(), Some(f(0.5)));
}

#[test]
fn mem_sample_none_when_current_unreadable() {
    assert!(mem("1000", None, Some(1000), false).is_none());
}

#[test]
fn refresh_recovers_limit_when_cache_none_and_threshold_set() {
    let mut cached: Option<u64> = None;
    refresh_mem_limit(&mut cached, || Ok::<_, std::io::Error>(Some(4096)), true);
    assert_eq!(cached, Some(4096));
}

#[test]
fn refresh_keeps_none_when_read_still_unlimited() {
    let mut cached: Option<u64> = None;
    refresh_mem_limit(&mut cached, || Ok::<_, std::io::Error>(None), true);
    assert_eq!(cached, None);

    let mut cached: Option<u64> = None;
    refresh_mem_limit(
        &mut cached,
        || Err(std::io::Error::other("read failed")),
        true,
    );
    assert_eq!(cached, None);
}

#[test]
fn refresh_does_not_read_once_limit_cached() {
    let called = Cell::new(false);
    let mut cached: Option<u64> = Some(512);
    refresh_mem_limit(
        &mut cached,
        || {
            called.set(true);
            Ok::<_, std::io::Error>(Some(9999))
        },
        true,
    );
    assert!(!called.get(), "closure must not run when a limit is cached");
    assert_eq!(cached, Some(512), "the cached limit must be untouched");
}

#[test]
fn refresh_does_not_read_without_threshold() {
    let called = Cell::new(false);
    let mut cached: Option<u64> = None;
    refresh_mem_limit(
        &mut cached,
        || {
            called.set(true);
            Ok::<_, std::io::Error>(Some(4096))
        },
        false,
    );
    assert!(!called.get(), "closure must not run without a threshold");
    assert_eq!(cached, None, "the cache stays None with no threshold");
}

#[test]
fn crash_loop_message_quotes_failures_and_lifetime_restarts() {
    let label = "target=\"svc\" heartbeat=none";
    let msg = crash_loop_message(label, 1234, 3, 0);
    assert!(msg.contains("event=crash-loop"), "msg = {msg}");
    assert!(msg.contains("failures=3"), "msg = {msg}");
    assert!(msg.contains("restarts=0"), "msg = {msg}");
    assert!(msg.contains("pid=1234"), "msg = {msg}");
    assert!(msg.contains(label), "msg = {msg}");
    let msg = crash_loop_message(label, 1234, 5, 2);
    assert!(msg.contains("failures=5"), "msg = {msg}");
    assert!(msg.contains("restarts=2"), "msg = {msg}");
    assert_eq!(
        msg,
        "event=crash-loop target=\"svc\" heartbeat=none pid=1234 failures=5 restarts=2 \
         action=giving-up"
    );
}

#[test]
fn spawned_message_carries_label_and_pid() {
    let label = "target=\"sleep 30\" heartbeat=/run/draug/hb";
    let m = spawned_message(label, 4321);
    assert!(m.contains("event=spawned"), "msg = {m}");
    assert!(m.contains(label), "msg = {m}");
    assert!(m.contains("pid=4321"), "msg = {m}");
}

#[test]
fn target_label_includes_argv_and_heartbeat_path() {
    let argv = vec!["sleep".to_string(), "30".to_string()];
    let with_hb = target_label(&argv, &Some(UnixPath::new("/run/draug/a.hb")));
    assert!(with_hb.contains("sleep 30"), "label = {with_hb}");
    assert!(
        with_hb.contains("heartbeat=/run/draug/a.hb"),
        "label = {with_hb}"
    );
    let other = target_label(&argv, &Some(UnixPath::new("/run/draug/b.hb")));
    assert_ne!(with_hb, other);
    let no_hb = target_label(&argv, &None);
    assert!(no_hb.contains("heartbeat=none"), "label = {no_hb}");
    assert_eq!(no_hb, "target=\"sleep 30\" heartbeat=none");
}

#[test]
fn only_an_interrupted_reap_is_repeated_and_only_while_allowed() {
    assert!(matches!(reap_step(Waited::Interrupted, 1), ReapStep::Again));
    match reap_step(Waited::Interrupted, 0) {
        ReapStep::Done(ReapOutcome::Inconclusive, Some(log)) => assert_eq!(
            log,
            "event=reap-inconclusive detail=\"interrupted past retry cap\""
        ),
        other => panic!("{other:?}"),
    }
    assert!(matches!(
        reap_step(Waited::Exited(exit_status_from_code(1)), 3),
        ReapStep::Done(ReapOutcome::Exited, None)
    ));
    assert!(matches!(
        reap_step(Waited::Running, 3),
        ReapStep::Done(ReapOutcome::Running, None)
    ));
    match reap_step(Waited::Failed("gone".to_string()), 3) {
        ReapStep::Done(ReapOutcome::Inconclusive, Some(log)) => {
            assert_eq!(log, "event=reap-error error=gone")
        }
        other => panic!("{other:?}"),
    }
}

#[test]
fn the_limit_is_read_again_after_a_pause_but_not_after_the_last_attempt() {
    let again = |answer: Result<Option<u64>, &'static str>, left: u32, on_none: bool| {
        matches!(limit_step(answer, left, on_none), LimitStep::PauseAndRead)
    };
    assert!(again(Err("busy"), 1, false));
    assert!(again(Ok(None), 1, true));
    assert!(!again(Ok(None), 1, false));
    assert!(!again(Ok(Some(7)), 1, true));
    assert!(!again(Err("busy"), 0, true));
    assert!(!again(Ok(None), 0, true));
    assert!(matches!(
        limit_step(Err("busy"), 0, true),
        LimitStep::Done(Err("busy"))
    ));
    assert!(matches!(
        limit_step::<&str>(Ok(Some(7)), 4, true),
        LimitStep::Done(Ok(Some(7)))
    ));
}

#[test]
fn logfmt_value_quotes_only_when_needed() {
    assert_eq!(logfmt_value("/run/draug/hb"), "/run/draug/hb");
    assert_eq!(logfmt_value("/run/my dir/hb"), "\"/run/my dir/hb\"");
    assert_eq!(logfmt_value("a=b"), "\"a=b\"");
    assert!(logfmt_value("a\"b").starts_with('"'));
    assert!(logfmt_value("a\nb").starts_with('"'));
    assert_eq!(logfmt_value(""), "\"\"");
    assert_eq!(logfmt_value("a\rb"), "\"a\\rb\"");
    assert!(logfmt_value("a\u{a0}b").starts_with('"'));
    assert_eq!(logfmt_value("a\tb\"c"), "\"a\\tb\\\"c\"");
}

#[test]
fn target_label_quotes_a_spaced_heartbeat_path() {
    let argv = vec!["sleep".to_string(), "30".to_string()];
    let label = target_label(&argv, &Some(UnixPath::new("/run/my dir/hb")));
    assert!(
        label.contains("heartbeat=\"/run/my dir/hb\""),
        "label = {label}"
    );
}

#[test]
fn restart_and_crash_messages_carry_label_pid_and_fields() {
    let label = "target=\"sleep 30\" heartbeat=/run/draug/hb";
    let r = restart_message(label, 1234, RestartReason::HeartbeatStale, false, 3);
    assert!(r.contains("event=restart"), "msg = {r}");
    assert!(r.contains(label), "msg = {r}");
    assert!(r.contains("pid=1234"), "msg = {r}");
    assert!(r.contains("reason=HeartbeatStale"), "msg = {r}");
    assert!(r.contains("escalated=false"), "msg = {r}");
    assert!(r.contains("restarts=3"), "msg = {r}");

    let c = crash_message(label, 1234, true, Duration::from_secs(7));
    assert!(c.contains("event=crash"), "msg = {c}");
    assert!(c.contains(label), "msg = {c}");
    assert!(c.contains("pid=1234"), "msg = {c}");
    assert!(c.contains("healthy=true"), "msg = {c}");
    assert!(c.ends_with("lived=7s"), "msg = {c}");
}

#[test]
fn other_messages_read_as_they_should() {
    assert_eq!(
        unkillable_message(),
        "event=unkillable detail=\"target survived SIGKILL within 2s; exiting non-zero so \
         tini tears down the container\""
    );
    assert_eq!(
        resolved_message(&cgroup_v2()),
        "event=cgroup-resolved version=V2 memory_dir=/cg cpu_dir=/cg"
    );
    assert_eq!(
        spawn_failed_message(true, "NotFound"),
        "event=spawn-failed phase=initial error=NotFound"
    );
    assert_eq!(
        spawn_failed_message(false, "x"),
        "event=spawn-failed phase=respawn error=x"
    );
    assert_eq!((limit_attempts(true), limit_attempts(false)), (3, 1));
}

#[test]
fn crash_loop_snapshot_count_matches_log_lifetime_restarts() {
    let mut sup = Supervisor::new(&config(cli()));
    let restart_total = 2u64;
    let commands = sup.carry_out(
        Action::CrashLoopGiveUp {
            failures: 3,
            restart_count: restart_total,
        },
        "target=\"true\" heartbeat=none",
        7,
    );
    assert_eq!(commands.len(), 2);
    assert!(matches!(
        commands[0],
        Command::AlertCrashLoop {
            reason: RestartReason::Crash,
            restart_count: 2,
            severity: Severity::Critical
        }
    ));
    match &commands[1] {
        Command::Log { level, body } => {
            assert_eq!(*level, LogLevel::Error);
            assert!(body.contains("restarts=2"));
        }
        other => panic!("expected a log line, got {other:?}"),
    }
}

#[test]
fn timespec_clamps_saturated_duration_to_non_negative() {
    let ts = timespec(Duration::max());
    assert!(ts.tv_sec >= 0, "tv_sec must stay non-negative; got {}", ts.tv_sec);
    assert_eq!(
        ts,
        TimerSpec {
            tv_sec: i64::MAX,
            tv_nsec: 0
        }
    );
}

#[test]
fn timespec_preserves_whole_seconds() {
    let ts = timespec(Duration::from_secs(5));
    assert_eq!(ts.tv_sec, 5);
    assert_eq!(ts.tv_nsec, 0);
}

#[test]
fn timespec_preserves_sub_second() {
    let ts = timespec(Duration::from_millis(250));
    assert_eq!(ts.tv_sec, 0);
    assert!(
        ts.tv_nsec != 0,
        "sub-second duration must keep non-zero nanoseconds"
    );
    assert_eq!(ts.tv_nsec, 250_000_000);
}

#[test]
fn timespec_floors_zero_to_one_millisecond() {
    let ts = timespec(Duration::zero());
    assert_eq!(ts.tv_sec, 0);
    assert_eq!(ts.tv_nsec, 1_000_000);
}

#[test]
fn timespec_of_saturated_backoff_is_non_negative() {
    let mut config = config(cli());
    config.backoff = Duration::from_secs(u64::MAX / 2);
    let delay = config.backoff.saturating_mul(u32::MAX);
    let ts = timespec(delay);
    assert!(ts.tv_sec >= 0);
}

#[test]
fn psi_err_or_hup_is_fatal_but_pri_is_not() {
    assert!(psi_ready_is_fatal(EpollFlags::EPOLLERR.bits()));
    assert!(psi_ready_is_fatal(EpollFlags::EPOLLHUP.bits()));
    assert!(psi_ready_is_fatal(
        (EpollFlags::EPOLLERR | EpollFlags::EPOLLPRI).bits()
    ));
    assert!(!psi_ready_is_fatal(EpollFlags::EPOLLPRI.bits()));
}

#[test]
fn psi_reopen_only_when_budget_and_not_event() {
    let poll: PsiHandle<u32> = PsiHandle::Poll(UnixPath::new("/x"));
    let unavailable: PsiHandle<u32> = PsiHandle::Unavailable;
    assert!(should_attempt_psi_reopen(&unavailable, true, 5));
    assert!(should_attempt_psi_reopen(&poll, true, 1));
    assert!(!should_attempt_psi_reopen(&unavailable, true, 0));
    assert!(!should_attempt_psi_reopen(&unavailable, false, 5));
    let event: PsiHandle<u32> = PsiHandle::Event(3);
    assert!(!should_attempt_psi_reopen(&event, true, 5));
}

#[test]
fn psi_reopen_budget_armed_only_for_unavailable() {
    let unavailable: PsiHandle<u32> = PsiHandle::Unavailable;
    assert_eq!(
        initial_psi_reopen_budget(true, &unavailable),
        PSI_REOPEN_ATTEMPTS
    );
    let poll: PsiHandle<u32> = PsiHandle::Poll(UnixPath::new("/x"));
    assert_eq!(initial_psi_reopen_budget(true, &poll), 0);
    let event: PsiHandle<u32> = PsiHandle::Event(3);
    assert_eq!(initial_psi_reopen_budget(true, &event), 0);
    assert_eq!(initial_psi_reopen_budget(false, &unavailable), 0);
}

#[test]
fn reopening_uses_up_its_budget_and_stops_on_success() {
    let trigger = Some(PsiTrigger {
        stall_us: 1,
        window_us: 2,
    });
    let tries = Cell::new(0);
    let open = |_: &PsiTrigger| {
        tries.set(tries.get() + 1);
        if tries.get() < 3 {
            PsiHandle::Unavailable
        } else {
            PsiHandle::Event(tries.get())
        }
    };
    let register = |h: &u32| (*h < 4).then(|| "EPERM".to_string());
    let mut handle = PsiHandle::Unavailable;
    let mut left = 10;
    let mut logs = Vec::new();
    for _ in 0..6 {
        logs.push(maybe_reopen_psi(
            &mut handle,
            &mut left,
            &trigger,
            &open,
            &register,
        ));
    }
    assert_eq!(tries.get(), 4);
    assert!(matches!(handle, PsiHandle::Event(4)));
    assert_eq!(left, 0);
    assert!(logs[0].is_none() && logs[1].is_none() && logs[4].is_none());
    assert_eq!(
        logs[2],
        Some((
            LogLevel::Warn,
            "event=psi-reopen-failed error=EPERM detail=\"reopened but epoll registration \
             failed; will retry\""
                .to_string()
        ))
    );
    assert_eq!(
        logs[3],
        Some((
            LogLevel::Info,
            "event=psi-active detail=\"event mode\"".to_string()
        ))
    );
    let mut left = 5;
    let mut handle: PsiHandle<u32> = PsiHandle::Unavailable;
    maybe_reopen_psi(&mut handle, &mut left, &None, &open, &register);
    assert_eq!((left, tries.get()), (5, 4));
}

#[test]
fn broken_pressure_is_not_reopened() {
    let mut left = 7;
    let (handle, watched, body) = disable_psi(PsiHandle::Event(9u32), &mut left);
    assert!(matches!(handle, PsiHandle::Unavailable));
    assert_eq!((left, watched), (0, Some(9)));
    assert_eq!(body, "event=psi-disabled reason=fd-error-or-hangup");
    let (_, watched, _) = disable_psi(PsiHandle::<u32>::Unavailable, &mut left);
    assert_eq!(watched, None);
}

#[test]
fn unreadable_heartbeat_is_logged_once_per_episode() {
    let p = UnixPath::new("/run/hb");
    let mut warned = false;
    let (input, log) = heartbeat_input(&p, HeartbeatAge::Unreadable, &mut warned);
    assert_eq!(input, HeartbeatInput::Unreadable);
    assert_eq!(
        log.unwrap(),
        "event=heartbeat-unreadable heartbeat=/run/hb detail=\"exists but unreadable; \
         treating as no signal (NOT restarting); check permissions/ownership\""
    );
    let (_, log) = heartbeat_input(&p, HeartbeatAge::Unreadable, &mut warned);
    assert!(log.is_none() && warned);
    let (input, _) = heartbeat_input(&p, HeartbeatAge::Missing, &mut warned);
    assert_eq!(input, HeartbeatInput::Missing);
    assert!(!warned);
    let (_, log) = heartbeat_input(&p, HeartbeatAge::Unreadable, &mut warned);
    assert!(log.is_some());
}

#[test]
fn sampling_reads_what_is_configured() {
    let c = config(Cli {
        mem_threshold: "0.85".into(),
        psi_trigger: "150000/1000000".into(),
        heartbeat_file: Some(UnixPath::new("/run/hb")),
        ..cli()
    });
    let files = files("1000", Some("900"));
    let read = |p: &UnixPath| find(&files, p);
    let age = |p: &UnixPath| {
        assert_eq!(text(p), "/run/hb");
        HeartbeatAge::Age(Duration::from_secs(3))
    };
    let handle: PsiHandle<u32> = PsiHandle::Poll(UnixPath::new("/cg/memory.pressure"));
    let mut warned = true;
    let (s, log) = sample(
        &cgroup_v2(),
        Some(1000),
        &c,
        &handle,
        Duration::from_secs(20),
        &mut warned,
        &read,
        &age,
        &number,
    );
    assert_eq!(
        s,
        Samples {
            elapsed: Duration::from_secs(20),
            mem_ratio: Some(f(0.9)),
            psi_triggered: true,
            heartbeat: HeartbeatInput::Age(Duration::from_secs(3)),
        }
    );
    assert!(log.is_none() && !warned);
    let event: PsiHandle<u32> = PsiHandle::Event(1);
    let (s, _) = sample(
        &cgroup_v2(),
        None,
        &config(cli()),
        &event,
        Duration::zero(),
        &mut warned,
        &read,
        &age,
        &number,
    );
    assert_eq!(s, Samples::placeholder());
}

#[test]
fn snapshot_gathers_the_evidence() {
    let c = config(Cli {
        heartbeat_file: Some(UnixPath::new("/run/hb")),
        ..cli()
    });
    let files = files("1000", Some("250"));
    let read = |p: &UnixPath| find(&files, p);
    let age = |_: &UnixPath| HeartbeatAge::Age(Duration::from_secs(9));
    let count = |p: &UnixPath| (text(p) == "/proc/7/fd").then_some(12u64);
    let s = snapshot(
        &cgroup_v2(),
        None,
        &c,
        RestartReason::Psi,
        4,
        7,
        &read,
        &age,
        &count,
        &number,
    );
    assert_eq!(
        s,
        Snapshot {
            reason: RestartReason::Psi,
            restart_count: 4,
            mem_current: Some(250),
            mem_max: Some(1000),
            mem_ratio: Some(f(0.25)),
            cpu_quota_ratio: Some(f(0.5)),
            threads: Some(3),
            open_fds: Some(12),
            heartbeat_age: Some(Duration::from_secs(9)),
        }
    );
}

#[test]
fn only_stop_signals_are_events() {
    assert_eq!(
        signal_event(Signal::SIGTERM as i32),
        Some(Event::OperatorStop)
    );
    assert_eq!(
        signal_event(Signal::SIGINT as i32),
        Some(Event::OperatorStop)
    );
    for other in [Signal::SIGCHLD as i32, Signal::SIGHUP as i32, 0, -1, 9999] {
        assert_eq!(signal_event(other), None);
    }
}

#[test]
fn confirmed_exit_goes_before_everything_else() {
    let mut sup = Supervisor::new(&config(cli()));
    sup.reaped(ReapOutcome::Exited);
    assert!(!sup.psi_ready(EpollFlags::EPOLLPRI.bits()));
    sup.ticked();
    sup.signalled(15);
    sup.timer_fired();
    let mut seen = Vec::new();
    while let Some(e) = sup.next_event() {
        seen.push(e);
    }
    assert_eq!(
        seen,
        vec![
            Event::ChildExited,
            Event::PsiEdge,
            Event::Tick,
            Event::OperatorStop,
            Event::TimerExpired,
        ]
    );
    sup.reaped(ReapOutcome::Inconclusive);
    assert_eq!(sup.next_event(), None);
    assert!(sup.psi_ready(EpollFlags::EPOLLHUP.bits()));
    assert_eq!(sup.next_event(), None);
}

#[test]
fn crash_is_not_taken_for_a_pressure_restart() {
    let mut sup = Supervisor::new(&config(cli()));
    sup.reaped(ReapOutcome::Exited);
    sup.psi_ready(EpollFlags::EPOLLPRI.bits());
    let mut all = Vec::new();
    while let Some(event) = sup.next_event() {
        all.extend(sup.handle(event, &Samples::placeholder()));
    }
    assert_eq!(sup.state, State::Backoff);
    assert_eq!(sup.ctx.failures, 1);
    assert!(!all.contains(&Action::SignalGraceful));
}

#[test]
fn drain_alert_sends_the_kept_snapshot_once() {
    let mut sup = Supervisor::new(&config(cli()));
    let drained = Action::SendDrainAlert {
        reason: RestartReason::Memory,
        escalated: false,
    };
    sup.keep(snap(RestartReason::Memory));
    let commands = sup.carry_out(drained, "l", 1);
    assert!(matches!(
        commands[0],
        Command::Send { snapshot, severity: Severity::Warning } if snapshot.reason == RestartReason::Memory
    ));
    let commands = sup.carry_out(drained, "l", 1);
    match &commands[0] {
        Command::Log { level, body } => {
            assert_eq!(*level, LogLevel::Error);
            assert_eq!(
                body,
                "event=internal detail=\"drain alert had no captured snapshot; alert dropped\" \
                 reason=Memory escalated=false"
            );
        }
        other => panic!("expected a log line, got {other:?}"),
    }
}

#[test]
fn routine_restart_is_logged_and_not_sent() {
    let mut sup = Supervisor::new(&config(cli()));
    sup.keep(snap(RestartReason::Periodic));
    let commands = sup.carry_out(
        Action::SendDrainAlert {
            reason: RestartReason::Periodic,
            escalated: false,
        },
        "l",
        1,
    );
    assert_eq!(commands.len(), 1);
    match &commands[0] {
        Command::Log { level, body } => {
            assert_eq!(*level, LogLevel::Warn);
            assert_eq!(
                body,
                "event=restart l pid=1 reason=Periodic escalated=false restarts=0"
            );
        }
        other => panic!("expected a log line, got {other:?}"),
    }
    assert!(sup.stash.is_some());
}

#[test]
fn every_action_has_its_command() {
    let mut sup = Supervisor::new(&config(Cli {
        graceful_signal: "INT".into(),
        ..cli()
    }));
    assert!(matches!(
        sup.carry_out(Action::Spawn, "l", 1)[0],
        Command::Spawn
    ));
    assert!(matches!(
        sup.carry_out(Action::SignalGraceful, "l", 1)[0],
        Command::Signal(GracefulKind::Int)
    ));
    assert!(matches!(
        sup.carry_out(Action::SignalKill, "l", 1)[0],
        Command::Kill
    ));
    assert!(matches!(
        sup.carry_out(Action::ArmActionTimer(Duration::from_secs(1)), "l", 1)[0],
        Command::ArmTimer(TimerSpec {
            tv_sec: 1,
            tv_nsec: 0
        })
    ));
    assert!(matches!(
        sup.carry_out(Action::DisarmActionTimer, "l", 1)[0],
        Command::DisarmTimer
    ));
    assert!(matches!(
        sup.carry_out(
            Action::CaptureSnapshot {
                reason: RestartReason::Psi,
                restart_count: 3
            },
            "l",
            1
        )[0],
        Command::Capture {
            reason: RestartReason::Psi,
            restart_count: 3
        }
    ));
    sup.keep(snap(RestartReason::Psi));
    let commands = sup.carry_out(
        Action::Unkillable {
            reason: RestartReason::Psi,
        },
        "l",
        1,
    );
    assert!(matches!(
        commands[0],
        Command::Send {
            severity: Severity::Critical,
            ..
        }
    ));
    assert!(matches!(
        commands[1],
        Command::Log {
            level: LogLevel::Error,
            ..
        }
    ));
    assert!(matches!(
        sup.carry_out(Action::Exit(1), "l", 1)[0],
        Command::Exit(1)
    ));
}

#[test]
fn respawn_is_counted_when_it_is_confirmed() {
    let mut sup = Supervisor::new(&config(cli()));
    sup.state = State::Respawning {
        shutdown_pending: false,
    };
    sup.spawn_finished(true);
    let event = sup.next_event().unwrap();
    sup.handle(event, &Samples::placeholder());
    assert_eq!(sup.state, State::Running);
    assert_eq!(sup.ctx.restart_total, 1);
    assert!(sup.needs_samples());
    assert!(state_implies_live_child(sup.state));
    assert!(!state_implies_live_child(State::Backoff));
}

#[test]
fn kept_snapshots_reach_the_queue() {
    let mut sup = Supervisor::new(&config(cli()));
    let mut queue = AlertQueue::new();
    sup.keep(snap(RestartReason::Psi));
    for command in sup.carry_out(
        Action::SendDrainAlert {
            reason: RestartReason::Psi,
            escalated: true,
        },
        "l",
        1,
    ) {
        if let Command::Send { snapshot, severity } = command {
            assert!(queue.send(true, &snapshot, severity).notify);
        }
    }
    assert_eq!(queue.items.len(), 1);
    assert_eq!(queue.items[0].1, Severity::Critical);
}
