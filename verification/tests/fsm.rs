//! The state machine, transition by transition.

use draug::binary64::Binary64;
use draug::cgroup::MemorySample;
use draug::decision::{DecisionLimits, HeartbeatInput, RestartReason};
use draug::fsm::{
    kill_confirm, step, Action, Ctx, Event, GracefulKind, Samples, SpawnOutcome, State,
};
use draug::time::Duration;

fn f(x: f64) -> Binary64 {
    Binary64::from_bits(x.to_bits())
}

#[test]
fn types_construct() {
    let ctx = Ctx {
        limits: limits_for_test(),
        failures: 0,
        restart_total: 0,
        grace_period: Duration::from_secs(90),
        backoff: Duration::from_secs(5),
        startup_grace: Duration::from_secs(15),
        max_failures: 3,
        graceful: GracefulKind::Term,
    };
    let _ = (State::Running, Event::Tick, ctx);
}

fn limits_for_test() -> DecisionLimits {
    DecisionLimits {
        restart_interval: Some(Duration::from_secs(1800)),
        mem_threshold: Some(f(0.85)),
        heartbeat_max_age: Duration::from_secs(60),
        startup_grace: Duration::from_secs(15),
    }
}

fn ctx() -> Ctx {
    Ctx {
        limits: limits_for_test(),
        failures: 0,
        restart_total: 0,
        grace_period: Duration::from_secs(90),
        backoff: Duration::from_secs(5),
        startup_grace: Duration::from_secs(15),
        max_failures: 3,
        graceful: GracefulKind::Term,
    }
}

fn samples(elapsed_s: u64) -> Samples {
    Samples {
        elapsed: Duration::from_secs(elapsed_s),
        mem_ratio: Some(f(0.1)),
        psi_triggered: false,
        heartbeat: HeartbeatInput::Disabled,
    }
}

#[test]
fn running_memory_trigger_begins_drain() {
    let mut c = ctx();
    let s = Samples {
        mem_ratio: Some(f(0.99)),
        ..samples(100)
    };
    let (st, acts) = step(State::Running, &mut c, Event::Tick, &s);
    assert_eq!(
        st,
        State::Draining {
            reason: RestartReason::Memory,
            shutdown: false
        }
    );
    assert!(acts.contains(&Action::SignalGraceful));
    assert!(acts.contains(&Action::ArmActionTimer(c.grace_period)));
    assert!(acts.iter().any(|a| matches!(
        a,
        Action::CaptureSnapshot {
            reason: RestartReason::Memory,
            restart_count: 1
        }
    )));
}

#[test]
fn running_psi_edge_begins_drain() {
    let mut c = ctx();
    c.failures = 2;
    let (st, _) = step(State::Running, &mut c, Event::PsiEdge, &samples(100));
    assert_eq!(
        st,
        State::Draining {
            reason: RestartReason::Psi,
            shutdown: false
        }
    );
    assert_eq!(c.failures, 2);
}

#[test]
fn running_tick_no_trigger_stays_running_and_resets_failures() {
    let mut c = ctx();
    c.failures = 2;
    let (st, acts) = step(State::Running, &mut c, Event::Tick, &samples(100));
    assert_eq!(st, State::Running);
    assert!(acts.is_empty());
    assert_eq!(c.failures, 0);
}

#[test]
fn running_tick_within_grace_does_not_reset_failures() {
    let mut c = ctx();
    c.failures = 2;
    let (_, _) = step(State::Running, &mut c, Event::Tick, &samples(5));
    assert_eq!(c.failures, 2);
}

#[test]
fn running_crash_within_grace_increments_and_backs_off() {
    let mut c = ctx();
    let (st, acts) = step(State::Running, &mut c, Event::ChildExited, &samples(5));
    assert_eq!(c.failures, 1);
    assert_eq!(st, State::Backoff);
    assert!(
        acts.iter()
            .any(|a| matches!(a, Action::LogCrash { healthy: false, .. }))
    );
    assert!(acts.iter().any(|a| matches!(a, Action::ArmActionTimer(_))));
}

#[test]
fn running_crash_after_grace_resets_streak() {
    let mut c = ctx();
    c.failures = 2;
    let (st, _) = step(State::Running, &mut c, Event::ChildExited, &samples(100));
    assert_eq!(c.failures, 0);
    assert_eq!(st, State::Backoff);
}

#[test]
fn running_crash_trips_give_up_at_max_failures() {
    let mut c = ctx();
    c.failures = 2;
    let (st, acts) = step(State::Running, &mut c, Event::ChildExited, &samples(5));
    assert_eq!(c.failures, 3);
    assert!(acts.contains(&Action::Exit(1)));
    assert!(
        acts.iter()
            .any(|a| matches!(a, Action::CrashLoopGiveUp { failures: 3, .. }))
    );
    assert_eq!(st, State::Backoff);
}

#[test]
fn running_operator_stop_begins_shutdown_drain() {
    let mut c = ctx();
    let (st, acts) = step(State::Running, &mut c, Event::OperatorStop, &samples(100));
    assert_eq!(
        st,
        State::Draining {
            reason: RestartReason::Periodic,
            shutdown: true
        }
    );
    assert!(acts.contains(&Action::SignalGraceful));
    assert!(acts.iter().any(|a| matches!(
        a,
        Action::CaptureSnapshot {
            restart_count: 0,
            ..
        }
    )));
}

#[test]
fn running_timer_expired_is_noop() {
    let mut c = ctx();
    let (st, acts) = step(State::Running, &mut c, Event::TimerExpired, &samples(100));
    assert_eq!(st, State::Running);
    assert!(acts.is_empty());
}

#[test]
fn running_spawn_result_is_noop() {
    let mut c = ctx();
    let (st, acts) = step(
        State::Running,
        &mut c,
        Event::SpawnResult(SpawnOutcome::Started),
        &samples(100),
    );
    assert_eq!(st, State::Running);
    assert!(acts.is_empty());
}

#[test]
fn draining_clean_exit_respawns() {
    let mut c = ctx();
    c.failures = 2;
    let st0 = State::Draining {
        reason: RestartReason::Memory,
        shutdown: false,
    };
    let (st, acts) = step(st0, &mut c, Event::ChildExited, &samples(100));
    assert_eq!(
        st,
        State::Respawning {
            shutdown_pending: false
        }
    );
    assert_eq!(c.failures, 0);
    assert!(acts.contains(&Action::DisarmActionTimer));
    assert!(acts.contains(&Action::Spawn));
    assert!(acts.iter().any(|a| matches!(
        a,
        Action::SendDrainAlert {
            reason: RestartReason::Memory,
            escalated: false
        }
    )));
}

#[test]
fn draining_clean_exit_shutdown_exits_zero() {
    let mut c = ctx();
    let st0 = State::Draining {
        reason: RestartReason::Periodic,
        shutdown: true,
    };
    let (_, acts) = step(st0, &mut c, Event::ChildExited, &samples(100));
    assert!(acts.contains(&Action::Exit(0)));
    assert!(!acts.contains(&Action::Spawn));
    assert!(acts.iter().any(|a| matches!(
        a,
        Action::SendDrainAlert {
            escalated: false,
            ..
        }
    )));
    assert!(!acts.contains(&Action::DisarmActionTimer));
}

#[test]
fn draining_grace_deadline_escalates_to_killing() {
    let mut c = ctx();
    let st0 = State::Draining {
        reason: RestartReason::Memory,
        shutdown: false,
    };
    let (st, acts) = step(st0, &mut c, Event::TimerExpired, &samples(100));
    assert_eq!(
        st,
        State::Killing {
            reason: RestartReason::Memory,
            shutdown: false
        }
    );
    assert!(acts.contains(&Action::SignalKill));
    assert!(acts.contains(&Action::ArmActionTimer(kill_confirm())));
    assert!(acts.iter().any(|a| matches!(
        a,
        Action::CaptureSnapshot {
            restart_count: 1,
            ..
        }
    )));
}

#[test]
fn draining_operator_stop_escalates_as_shutdown() {
    let mut c = ctx();
    let st0 = State::Draining {
        reason: RestartReason::Memory,
        shutdown: false,
    };
    let (st, acts) = step(st0, &mut c, Event::OperatorStop, &samples(100));
    assert_eq!(
        st,
        State::Killing {
            reason: RestartReason::Memory,
            shutdown: true
        }
    );
    assert!(acts.contains(&Action::SignalKill));
    assert!(acts.iter().any(|a| matches!(
        a,
        Action::CaptureSnapshot {
            restart_count: 0,
            ..
        }
    )));
}

#[test]
fn draining_tick_is_noop() {
    let mut c = ctx();
    let st0 = State::Draining {
        reason: RestartReason::Memory,
        shutdown: false,
    };
    let (st, acts) = step(st0, &mut c, Event::Tick, &samples(100));
    assert_eq!(st, st0);
    assert!(acts.is_empty());
}

#[test]
fn draining_psi_edge_is_noop() {
    let mut c = ctx();
    let st0 = State::Draining {
        reason: RestartReason::Memory,
        shutdown: false,
    };
    let (st, acts) = step(st0, &mut c, Event::PsiEdge, &samples(100));
    assert_eq!(st, st0);
    assert!(acts.is_empty());
}

#[test]
fn killing_confirmed_death_respawns() {
    let mut c = ctx();
    c.failures = 2;
    let st0 = State::Killing {
        reason: RestartReason::Memory,
        shutdown: false,
    };
    let (st, acts) = step(st0, &mut c, Event::ChildExited, &samples(100));
    assert_eq!(
        st,
        State::Respawning {
            shutdown_pending: false
        }
    );
    assert_eq!(c.failures, 0);
    assert!(acts.contains(&Action::DisarmActionTimer));
    assert!(acts.contains(&Action::Spawn));
    assert!(acts.iter().any(|a| matches!(
        a,
        Action::SendDrainAlert {
            reason: RestartReason::Memory,
            escalated: true
        }
    )));
}

#[test]
fn killing_confirmed_death_shutdown_exits_zero() {
    let mut c = ctx();
    let st0 = State::Killing {
        reason: RestartReason::Psi,
        shutdown: true,
    };
    let (_, acts) = step(st0, &mut c, Event::ChildExited, &samples(100));
    assert!(acts.contains(&Action::Exit(0)));
    assert!(!acts.contains(&Action::Spawn));
}

#[test]
fn killing_deadline_survived_sigkill_alerts_then_exits_nonzero() {
    let mut c = ctx();
    let st0 = State::Killing {
        reason: RestartReason::Memory,
        shutdown: false,
    };
    let (_, acts) = step(st0, &mut c, Event::TimerExpired, &samples(100));
    assert_eq!(
        acts,
        vec![
            Action::Unkillable {
                reason: RestartReason::Memory
            },
            Action::Exit(1),
        ]
    );
}

#[test]
fn killing_operator_stop_records_shutdown_without_rekill() {
    let mut c = ctx();
    let st0 = State::Killing {
        reason: RestartReason::Memory,
        shutdown: false,
    };
    let (st, acts) = step(st0, &mut c, Event::OperatorStop, &samples(100));
    assert_eq!(
        st,
        State::Killing {
            reason: RestartReason::Memory,
            shutdown: true,
        }
    );
    assert!(acts.is_empty());
    let (st2, acts2) = step(st, &mut c, Event::OperatorStop, &samples(100));
    assert_eq!(st2, st);
    assert!(acts2.is_empty());
    let (_, acts3) = step(st, &mut c, Event::ChildExited, &samples(100));
    assert!(acts3.contains(&Action::Exit(0)));
    assert!(!acts3.contains(&Action::Spawn));
}

#[test]
fn killing_tick_is_noop() {
    let mut c = ctx();
    let st0 = State::Killing {
        reason: RestartReason::Memory,
        shutdown: false,
    };
    let (st, acts) = step(st0, &mut c, Event::Tick, &samples(100));
    assert_eq!(st, st0);
    assert!(acts.is_empty());
}

#[test]
fn backoff_deadline_spawns() {
    let mut c = ctx();
    let (st, acts) = step(State::Backoff, &mut c, Event::TimerExpired, &samples(0));
    assert_eq!(
        st,
        State::Respawning {
            shutdown_pending: false
        }
    );
    assert!(acts.contains(&Action::Spawn));
}

#[test]
fn backoff_operator_stop_exits_zero() {
    let mut c = ctx();
    let (_, acts) = step(State::Backoff, &mut c, Event::OperatorStop, &samples(0));
    assert!(acts.contains(&Action::Exit(0)));
}

#[test]
fn respawn_success_returns_to_running_and_counts() {
    let mut c = ctx();
    c.restart_total = 4;
    let st0 = State::Respawning {
        shutdown_pending: false,
    };
    let (st, acts) = step(
        st0,
        &mut c,
        Event::SpawnResult(SpawnOutcome::Started),
        &samples(0),
    );
    assert_eq!(st, State::Running);
    assert_eq!(c.restart_total, 5);
    assert!(acts.is_empty());
}

#[test]
fn respawn_failure_backs_off_and_keeps_streak() {
    let mut c = ctx();
    c.failures = 1;
    let st0 = State::Respawning {
        shutdown_pending: false,
    };
    let (st, acts) = step(
        st0,
        &mut c,
        Event::SpawnResult(SpawnOutcome::Failed),
        &samples(0),
    );
    assert_eq!(c.failures, 2);
    assert_eq!(st, State::Backoff);
    assert!(acts.iter().any(|a| matches!(a, Action::ArmActionTimer(_))));
}

#[test]
fn respawn_failure_trips_give_up() {
    let mut c = ctx();
    c.failures = 2;
    let st0 = State::Respawning {
        shutdown_pending: false,
    };
    let (_, acts) = step(
        st0,
        &mut c,
        Event::SpawnResult(SpawnOutcome::Failed),
        &samples(0),
    );
    assert_eq!(c.failures, 3);
    assert!(acts.contains(&Action::Exit(1)));
    assert!(acts.iter().any(|a| matches!(
        a,
        Action::CrashLoopGiveUp {
            failures: 3,
            restart_count: 0
        }
    )));
}

#[test]
fn backoff_child_exited_is_noop() {
    let mut c = ctx();
    let (st, acts) = step(State::Backoff, &mut c, Event::ChildExited, &samples(0));
    assert_eq!(st, State::Backoff);
    assert!(acts.is_empty());
}

#[test]
fn respawn_success_does_not_touch_failures() {
    let mut c = ctx();
    c.failures = 0;
    c.restart_total = 1;
    let st0 = State::Respawning {
        shutdown_pending: false,
    };
    let (st, _) = step(
        st0,
        &mut c,
        Event::SpawnResult(SpawnOutcome::Started),
        &samples(0),
    );
    assert_eq!(st, State::Running);
    assert_eq!(c.failures, 0);
    assert_eq!(c.restart_total, 2);
}

#[test]
fn respawn_tick_is_noop() {
    let mut c = ctx();
    let st0 = State::Respawning {
        shutdown_pending: false,
    };
    let (st, acts) = step(st0, &mut c, Event::Tick, &samples(0));
    assert_eq!(st, st0);
    assert!(acts.is_empty());
}

#[test]
fn regression_crash_before_psi_is_a_crash_not_a_drain() {
    let mut c = ctx();
    let (st1, a1) = step(State::Running, &mut c, Event::ChildExited, &samples(5));
    assert_eq!(c.failures, 1);
    assert_eq!(st1, State::Backoff);
    assert!(a1.iter().any(|a| matches!(a, Action::LogCrash { .. })));
    let (st2, a2) = step(st1, &mut c, Event::PsiEdge, &samples(5));
    assert_eq!(st2, State::Backoff);
    assert!(!a2.contains(&Action::SignalGraceful));
}

#[test]
fn regression_no_hang_killing_always_progresses() {
    let mut c = ctx();
    let st = State::Killing {
        reason: RestartReason::Memory,
        shutdown: false,
    };
    let (_, acts) = step(st, &mut c, Event::TimerExpired, &samples(100));
    assert!(acts.contains(&Action::Exit(1)));
}

#[test]
fn regression_escalation_is_idempotent() {
    let mut c = ctx();
    let (st1, _) = step(
        State::Draining {
            reason: RestartReason::Memory,
            shutdown: false,
        },
        &mut c,
        Event::OperatorStop,
        &samples(100),
    );
    assert_eq!(
        st1,
        State::Killing {
            reason: RestartReason::Memory,
            shutdown: true,
        }
    );
    let (st2, a2) = step(st1, &mut c, Event::OperatorStop, &samples(100));
    assert_eq!(st2, st1);
    assert!(a2.is_empty());
}

#[test]
fn regression_restart_count_single_source() {
    let mut c = ctx();
    c.restart_total = 7;
    let (_, a_anom) = step(State::Running, &mut c, Event::PsiEdge, &samples(100));
    assert!(a_anom.iter().any(|a| matches!(
        a,
        Action::CaptureSnapshot {
            restart_count: 8,
            ..
        }
    )));
    let mut c2 = ctx();
    c2.restart_total = 7;
    let (_, a_shut) = step(State::Running, &mut c2, Event::OperatorStop, &samples(100));
    assert!(a_shut.iter().any(|a| matches!(
        a,
        Action::CaptureSnapshot {
            restart_count: 7,
            ..
        }
    )));
}

fn drain_reason_for(s: &Samples) -> Option<RestartReason> {
    let mut c = ctx();
    match step(State::Running, &mut c, Event::Tick, s) {
        (State::Draining { reason, .. }, _) => Some(reason),
        _ => None,
    }
}

#[test]
fn precedence_heartbeat_beats_all() {
    let s = Samples {
        elapsed: Duration::from_secs(2000),
        mem_ratio: Some(f(0.99)),
        psi_triggered: true,
        heartbeat: HeartbeatInput::Age(Duration::from_secs(120)),
    };
    assert_eq!(drain_reason_for(&s), Some(RestartReason::HeartbeatStale));
}

#[test]
fn precedence_psi_beats_memory_and_periodic() {
    let s = Samples {
        elapsed: Duration::from_secs(2000),
        mem_ratio: Some(f(0.99)),
        psi_triggered: true,
        heartbeat: HeartbeatInput::Disabled,
    };
    assert_eq!(drain_reason_for(&s), Some(RestartReason::Psi));
}

#[test]
fn precedence_memory_beats_periodic() {
    let s = Samples {
        elapsed: Duration::from_secs(2000),
        mem_ratio: Some(f(0.90)),
        psi_triggered: false,
        heartbeat: HeartbeatInput::Disabled,
    };
    assert_eq!(drain_reason_for(&s), Some(RestartReason::Memory));
}

#[test]
fn precedence_periodic_alone() {
    let s = Samples {
        elapsed: Duration::from_secs(1800),
        mem_ratio: Some(f(0.10)),
        psi_triggered: false,
        heartbeat: HeartbeatInput::Disabled,
    };
    assert_eq!(drain_reason_for(&s), Some(RestartReason::Periodic));
}

#[test]
fn precedence_no_trigger_is_none() {
    let s = Samples {
        elapsed: Duration::from_secs(100),
        mem_ratio: Some(f(0.10)),
        psi_triggered: false,
        heartbeat: HeartbeatInput::Disabled,
    };
    assert_eq!(drain_reason_for(&s), None);
}

#[test]
fn precedence_crash_is_separate_path() {
    let mut c = ctx();
    let s = Samples {
        elapsed: Duration::from_secs(2000),
        mem_ratio: Some(f(0.99)),
        psi_triggered: true,
        heartbeat: HeartbeatInput::Age(Duration::from_secs(120)),
    };
    let (st, acts) = step(State::Running, &mut c, Event::ChildExited, &s);
    assert_eq!(st, State::Backoff);
    assert!(acts.iter().any(|a| matches!(a, Action::LogCrash { .. })));
    assert!(!acts.contains(&Action::SignalGraceful));
}

#[test]
fn precedence_heartbeat_missing_is_stale() {
    let s = Samples {
        elapsed: Duration::from_secs(100),
        mem_ratio: Some(f(0.10)),
        psi_triggered: false,
        heartbeat: HeartbeatInput::Missing,
    };
    assert_eq!(drain_reason_for(&s), Some(RestartReason::HeartbeatStale));
}

#[test]
fn precedence_periodic_fires_within_startup_grace() {
    let mut c = ctx();
    c.limits.restart_interval = Some(Duration::from_secs(5));
    let s = Samples {
        elapsed: Duration::from_secs(5),
        mem_ratio: Some(f(0.99)),
        psi_triggered: true,
        heartbeat: HeartbeatInput::Missing,
    };
    let (st, _) = step(State::Running, &mut c, Event::Tick, &s);
    assert_eq!(
        st,
        State::Draining {
            reason: RestartReason::Periodic,
            shutdown: false
        }
    );
}

#[test]
fn respawning_operator_stop_defers_then_drains_new_child_on_success() {
    let mut c = ctx();
    c.restart_total = 3;
    let st0 = State::Respawning {
        shutdown_pending: false,
    };
    let (st1, acts1) = step(st0, &mut c, Event::OperatorStop, &samples(0));
    assert_eq!(
        st1,
        State::Respawning {
            shutdown_pending: true
        }
    );
    assert!(acts1.is_empty());
    let (st2, acts2) = step(
        st1,
        &mut c,
        Event::SpawnResult(SpawnOutcome::Started),
        &samples(0),
    );
    assert_eq!(c.restart_total, 4);
    assert_eq!(
        st2,
        State::Draining {
            reason: RestartReason::Periodic,
            shutdown: true
        }
    );
    assert!(acts2.contains(&Action::SignalGraceful));
    assert!(acts2.contains(&Action::ArmActionTimer(c.grace_period)));
}

#[test]
fn respawning_operator_stop_flag_survives_unrelated_events() {
    let mut c = ctx();
    let st0 = State::Respawning {
        shutdown_pending: false,
    };
    let (st1, _) = step(st0, &mut c, Event::OperatorStop, &samples(0));
    let (st2, acts2) = step(st1, &mut c, Event::Tick, &samples(0));
    assert_eq!(
        st2,
        State::Respawning {
            shutdown_pending: true
        }
    );
    assert!(acts2.is_empty());
}

#[test]
fn respawning_operator_stop_exits_cleanly_when_spawn_fails() {
    let mut c = ctx();
    let st0 = State::Respawning {
        shutdown_pending: true,
    };
    let (_, acts) = step(
        st0,
        &mut c,
        Event::SpawnResult(SpawnOutcome::Failed),
        &samples(0),
    );
    assert!(acts.contains(&Action::Exit(0)));
    assert!(
        !acts
            .iter()
            .any(|a| matches!(a, Action::CrashLoopGiveUp { .. }))
    );
    assert_eq!(c.failures, 0);
}

#[test]
fn begin_drain_orders_snapshot_before_signal_before_timer() {
    let mut c = ctx();
    let s = Samples {
        mem_ratio: Some(f(0.99)),
        ..samples(100)
    };
    let (_, acts) = step(State::Running, &mut c, Event::Tick, &s);
    let snap = acts
        .iter()
        .position(|a| matches!(a, Action::CaptureSnapshot { .. }))
        .expect("snapshot present");
    let sig = acts
        .iter()
        .position(|a| matches!(a, Action::SignalGraceful))
        .expect("graceful signal present");
    let timer = acts
        .iter()
        .position(|a| matches!(a, Action::ArmActionTimer(_)))
        .expect("timer present");
    assert!(snap < sig, "snapshot must precede the graceful signal");
    assert!(sig < timer, "signal must precede arming the grace timer");
}

#[test]
fn escalate_orders_snapshot_before_kill() {
    let mut c = ctx();
    let st0 = State::Draining {
        reason: RestartReason::Memory,
        shutdown: false,
    };
    let (_, acts) = step(st0, &mut c, Event::TimerExpired, &samples(100));
    let snap = acts
        .iter()
        .position(|a| matches!(a, Action::CaptureSnapshot { .. }))
        .expect("snapshot present");
    let kill = acts
        .iter()
        .position(|a| matches!(a, Action::SignalKill))
        .expect("kill present");
    assert!(snap < kill, "snapshot must precede the SIGKILL");
}

#[test]
fn draining_clean_exit_orders_alert_disarm_spawn() {
    let mut c = ctx();
    let st0 = State::Draining {
        reason: RestartReason::Memory,
        shutdown: false,
    };
    let (_, acts) = step(st0, &mut c, Event::ChildExited, &samples(100));
    let alert = acts
        .iter()
        .position(|a| matches!(a, Action::SendDrainAlert { .. }))
        .expect("alert present");
    let disarm = acts
        .iter()
        .position(|a| matches!(a, Action::DisarmActionTimer))
        .expect("disarm present");
    let spawn = acts
        .iter()
        .position(|a| matches!(a, Action::Spawn))
        .expect("spawn present");
    assert!(alert < disarm, "alert must precede disarming the timer");
    assert!(disarm < spawn, "disarm must precede the respawn");
}

#[test]
fn crash_loop_giveup_orders_before_exit() {
    let mut c = ctx();
    c.failures = 2;
    let (_, acts) = step(State::Running, &mut c, Event::ChildExited, &samples(5));
    let giveup = acts
        .iter()
        .position(|a| matches!(a, Action::CrashLoopGiveUp { .. }))
        .expect("giveup present");
    let exit = acts
        .iter()
        .position(|a| matches!(a, Action::Exit(_)))
        .expect("exit present");
    assert!(giveup < exit, "give-up alert must fire before the exit");
}

#[test]
fn backoff_grows_with_the_streak_and_saturates() {
    let mut c = ctx();
    c.max_failures = 10;
    c.failures = 1;
    let (_, acts) = step(State::Running, &mut c, Event::ChildExited, &samples(5));
    assert_eq!(
        acts,
        vec![
            Action::LogCrash {
                healthy: false,
                lived: Duration::from_secs(5)
            },
            Action::ArmActionTimer(Duration::from_secs(10)),
        ]
    );
    let mut c = ctx();
    c.max_failures = u32::MAX;
    c.failures = 1000;
    c.backoff = Duration::max();
    let (_, acts) = step(State::Running, &mut c, Event::ChildExited, &samples(5));
    assert_eq!(acts[1], Action::ArmActionTimer(Duration::max()));
}

#[test]
fn healthy_crash_respawns_after_a_millisecond() {
    let mut c = ctx();
    let (_, acts) = step(State::Running, &mut c, Event::ChildExited, &samples(100));
    assert_eq!(
        acts,
        vec![
            Action::LogCrash {
                healthy: true,
                lived: Duration::from_secs(100)
            },
            Action::ArmActionTimer(Duration::from_millis(1)),
        ]
    );
}

#[test]
fn counters_stop_at_their_maximum() {
    let mut c = ctx();
    c.restart_total = u64::MAX;
    let pending = State::Respawning {
        shutdown_pending: false,
    };
    step(
        pending,
        &mut c,
        Event::SpawnResult(SpawnOutcome::Started),
        &samples(0),
    );
    assert_eq!(c.restart_total, u64::MAX);
    let mut c = ctx();
    c.failures = u32::MAX;
    c.max_failures = u32::MAX;
    step(State::Running, &mut c, Event::ChildExited, &samples(5));
    assert_eq!(c.failures, u32::MAX);
}

#[test]
fn stop_is_never_lost_whatever_follows() {
    let events = [
        Event::Tick,
        Event::PsiEdge,
        Event::SpawnResult(SpawnOutcome::Started),
        Event::Tick,
        Event::TimerExpired,
        Event::PsiEdge,
        Event::ChildExited,
    ];
    let states = [
        State::Running,
        State::Draining {
            reason: RestartReason::Memory,
            shutdown: false,
        },
        State::Killing {
            reason: RestartReason::Psi,
            shutdown: false,
        },
        State::Respawning {
            shutdown_pending: false,
        },
    ];
    for start in states {
        let mut c = ctx();
        let (mut state, acts) = step(start, &mut c, Event::OperatorStop, &samples(100));
        assert!(!acts.contains(&Action::Spawn));
        let mut exited = false;
        for event in events {
            let (next, acts) = step(state, &mut c, event, &samples(100));
            assert!(!acts.contains(&Action::Spawn));
            if acts.iter().any(|a| matches!(a, Action::Exit(_))) {
                exited = true;
                break;
            }
            state = next;
        }
        assert!(exited);
    }
}

#[test]
fn takedown_needs_two_deadlines_at_most() {
    let mut c = ctx();
    let (st, _) = step(State::Running, &mut c, Event::PsiEdge, &samples(100));
    let (st, acts) = step(st, &mut c, Event::TimerExpired, &samples(100));
    assert!(acts.contains(&Action::SignalKill));
    let (_, acts) = step(st, &mut c, Event::TimerExpired, &samples(100));
    assert_eq!(*acts.last().unwrap(), Action::Exit(1));
}

#[test]
fn crash_loop_runs_into_its_maximum() {
    let mut c = ctx();
    for crash in 1..3u32 {
        let (st, _) = step(State::Running, &mut c, Event::ChildExited, &samples(1));
        assert_eq!(c.failures, crash);
        let (st, acts) = step(st, &mut c, Event::TimerExpired, &samples(1));
        assert_eq!(acts, vec![Action::Spawn]);
        let (st, _) = step(
            st,
            &mut c,
            Event::SpawnResult(SpawnOutcome::Started),
            &samples(1),
        );
        assert_eq!(st, State::Running);
    }
    let (_, acts) = step(State::Running, &mut c, Event::ChildExited, &samples(1));
    assert_eq!(*acts.last().unwrap(), Action::Exit(1));
    assert!(acts.contains(&Action::CrashLoopGiveUp {
        failures: 3,
        restart_count: 2
    }));
}

#[test]
fn samples_are_ignored_unless_running() {
    let loud = Samples {
        elapsed: Duration::from_secs(9999),
        mem_ratio: Some(f(1.0)),
        psi_triggered: true,
        heartbeat: HeartbeatInput::Missing,
    };
    let quiet = Samples::placeholder();
    for event in [Event::Tick, Event::PsiEdge, Event::TimerExpired] {
        let mut a = ctx();
        let mut b = ctx();
        assert_eq!(
            step(State::Backoff, &mut a, event, &loud),
            step(State::Backoff, &mut b, event, &quiet)
        );
        assert_eq!(a, b);
    }
}

#[test]
fn exhausted_memory_is_drained_on_the_next_tick() {
    for (current, max) in [(1u64, 0u64), (4096, 4096), (u64::MAX, 1)] {
        let ratio = MemorySample {
            current,
            max: Some(max),
        }
        .ratio();
        let mut c = ctx();
        c.limits.mem_threshold = Some(f(1.0));
        let s = Samples {
            mem_ratio: ratio,
            ..samples(100)
        };
        let (st, _) = step(State::Running, &mut c, Event::Tick, &s);
        assert_eq!(
            st,
            State::Draining {
                reason: RestartReason::Memory,
                shutdown: false
            }
        );
    }
}

#[test]
fn pressure_edge_and_sample_agree() {
    for elapsed in [5, 100, 2000] {
        let mut a = ctx();
        let mut b = ctx();
        let edge = step(State::Running, &mut a, Event::PsiEdge, &samples(elapsed));
        let sampled = Samples {
            psi_triggered: true,
            ..samples(elapsed)
        };
        assert_eq!(edge, step(State::Running, &mut b, Event::Tick, &sampled));
    }
}

#[test]
fn exit_at_the_grace_deadline_is_not_a_hang() {
    let mut c = ctx();
    let draining = State::Draining {
        reason: RestartReason::Memory,
        shutdown: false,
    };
    let (st, acts) = step(draining, &mut c, Event::ChildExited, &samples(0));
    assert_eq!(
        acts[0],
        Action::SendDrainAlert {
            reason: RestartReason::Memory,
            escalated: false
        }
    );
    let (st2, acts) = step(st, &mut c, Event::TimerExpired, &samples(0));
    assert_eq!(st2, st);
    assert!(acts.is_empty());
}
