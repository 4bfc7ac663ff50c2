//! The supervisor state machine.
//!
//! [`step`] owns every lifecycle transition and all restart accounting: from the
//! state, the accounting, an event and the latest samples it computes the next
//! state and the actions to perform, in order. It performs none of them itself.

use crate::binary64::Binary64;
use crate::decision::{
    decided, evaluate, Decision, DecisionLimits, HeartbeatInput, Inputs, RestartReason,
};
use crate::time::{Duration, MAX_NANOS, NANOS_PER_MILLI, NANOS_PER_SEC};
use vstd::prelude::*;

verus! {

/// Wait window after SIGKILL, in seconds, before a target that will not die is
/// given up on. SIGKILL almost always reaps within milliseconds; two seconds are
/// generous headroom.
pub const KILL_CONFIRM: u64 = 2;

/// Which graceful signal to send.
#[derive(Clone, Copy, PartialEq, Eq, Debug, Structural)]
pub enum GracefulKind {
    Term,
    Int,
}

/// State of the supervised target. What an expired timer means is part of the
/// state.
#[derive(Clone, Copy, PartialEq, Eq, Debug, Structural)]
pub enum State {
    /// Target alive, normal monitoring.
    Running,
    /// Graceful signal sent; awaiting exit before the grace deadline.
    Draining { reason: RestartReason, shutdown: bool },
    /// SIGKILL sent; awaiting confirmed death before the kill-confirm deadline.
    Killing { reason: RestartReason, shutdown: bool },
    /// Awaiting the respawn deadline after a crash.
    Backoff,
    /// Spawn commanded; awaiting its result. `shutdown_pending` records a stop
    /// that was asked for in between.
    Respawning { shutdown_pending: bool },
}

/// Something that happened in the outside world.
#[derive(Clone, Copy, PartialEq, Eq, Debug, Structural)]
pub enum Event {
    /// The target's exit was confirmed.
    ChildExited,
    /// Periodic tick.
    Tick,
    /// The action timer fired; the state says what it stands for.
    TimerExpired,
    /// A stop was asked for from outside; no respawn.
    OperatorStop,
    /// Memory pressure crossed its threshold.
    PsiEdge,
    /// Result of a commanded [`Action::Spawn`].
    SpawnResult(SpawnOutcome),
}

/// Outcome of a commanded [`Action::Spawn`].
#[derive(Clone, Copy, PartialEq, Eq, Debug, Structural)]
pub enum SpawnOutcome {
    Started,
    Failed,
}

/// Resource samples captured for one step.
#[derive(Clone, Copy, PartialEq, Eq, Debug, Structural)]
pub struct Samples {
    pub elapsed: Duration,
    pub mem_ratio: Option<Binary64>,
    pub psi_triggered: bool,
    pub heartbeat: HeartbeatInput,
}

/// A side effect to perform.
#[derive(Clone, Copy, PartialEq, Eq, Debug, Structural)]
pub enum Action {
    Spawn,
    SignalGraceful,
    SignalKill,
    ArmActionTimer(Duration),
    DisarmActionTimer,
    /// Take a snapshot of the living target and keep it.
    CaptureSnapshot { reason: RestartReason, restart_count: u64 },
    /// Send the kept snapshot, as severe as the reason and the escalation make it.
    SendDrainAlert { reason: RestartReason, escalated: bool },
    LogCrash { healthy: bool, lived: Duration },
    /// The crash loop is given up on: alert and log.
    CrashLoopGiveUp { failures: u32, restart_count: u64 },
    /// The target outlived SIGKILL: alert with the kept snapshot and log.
    Unkillable { reason: RestartReason },
    Exit(i32),
}

/// Accounting, and the configuration that the machine needs.
#[derive(Clone, Copy, PartialEq, Eq, Debug, Structural)]
pub struct Ctx {
    pub limits: DecisionLimits,
    pub failures: u32,
    pub restart_total: u64,
    pub grace_period: Duration,
    pub backoff: Duration,
    pub startup_grace: Duration,
    pub max_failures: u32,
    pub graceful: GracefulKind,
}

/// What one step yields: the next state, the accounting and the actions.
pub type Outcome = (State, Ctx, Seq<Action>);

/// The confirm window as a span of time.
pub fn kill_confirm() -> (d: Duration)
    ensures
        d == kill_confirm_window(),
        d@ == 2_000_000_000,
{
    Duration::from_secs(KILL_CONFIRM)
}

/// The confirm window as a span of time.
pub open spec fn kill_confirm_window() -> Duration {
    Duration::of_nanos((KILL_CONFIRM * NANOS_PER_SEC) as nat)
}

/// `n + 1`, or `n` if that is the largest count.
pub open spec fn next_total(n: u64) -> u64 {
    if n < u64::MAX {
        (n + 1) as u64
    } else {
        n
    }
}

/// `n + 1`, or `n` if that is the largest streak.
pub open spec fn next_streak(n: u32) -> u32 {
    if n < u32::MAX {
        (n + 1) as u32
    } else {
        n
    }
}

/// The restart count that a snapshot reports: a restart that is about to follow
/// is counted already.
pub open spec fn reported_count(restart_total: u64, will_restart: bool) -> u64 {
    if will_restart {
        next_total(restart_total)
    } else {
        restart_total
    }
}

/// How long to wait before the next respawn: the base times the failure streak,
/// and one millisecond without a streak.
pub open spec fn respawn_delay(backoff: Duration, failures: u32) -> Duration {
    if failures == 0 {
        Duration::of_nanos(NANOS_PER_MILLI as nat)
    } else if backoff@ * failures <= MAX_NANOS {
        Duration::of_nanos((backoff@ * failures) as nat)
    } else {
        Duration::of_nanos(MAX_NANOS as nat)
    }
}

/// Snapshot, signal, and a deadline: how a living target is brought to its end.
pub open spec fn takedown(
    reason: RestartReason,
    shutdown: bool,
    ctx: Ctx,
    signal: Action,
    deadline: Duration,
) -> Seq<Action> {
    seq![
        Action::CaptureSnapshot {
            reason,
            restart_count: reported_count(ctx.restart_total, !shutdown),
        },
        signal,
        Action::ArmActionTimer(deadline),
    ]
}

/// A graceful drain begins.
pub open spec fn drained(reason: RestartReason, shutdown: bool, ctx: Ctx) -> Outcome {
    (
        State::Draining { reason, shutdown },
        ctx,
        takedown(reason, shutdown, ctx, Action::SignalGraceful, ctx.grace_period),
    )
}

/// A drain is escalated to SIGKILL.
pub open spec fn escalated(reason: RestartReason, shutdown: bool, ctx: Ctx) -> Outcome {
    (
        State::Killing { reason, shutdown },
        ctx,
        takedown(reason, shutdown, ctx, Action::SignalKill, kill_confirm_window()),
    )
}

/// What follows a start that failed, once it is counted: give up when the streak
/// has reached its maximum, else wait and respawn.
pub open spec fn after_failure(ctx: Ctx) -> Seq<Action> {
    if ctx.failures >= ctx.max_failures {
        seq![
            Action::CrashLoopGiveUp {
                failures: ctx.failures,
                restart_count: ctx.restart_total,
            },
            Action::Exit(1),
        ]
    } else {
        seq![Action::ArmActionTimer(respawn_delay(ctx.backoff, ctx.failures))]
    }
}

/// The target exited by itself after having lived for `lived`. One that outlived
/// the startup grace was healthy and ends the streak.
pub open spec fn crashed(ctx: Ctx, lived: Duration) -> Outcome {
    let healthy = lived@ >= ctx.startup_grace@;
    let counted = Ctx {
        failures: if healthy {
            0
        } else {
            next_streak(ctx.failures)
        },
        ..ctx
    };
    (
        State::Backoff,
        counted,
        seq![Action::LogCrash { healthy, lived }] + after_failure(counted),
    )
}

/// A target that was being taken down is gone: report it, then exit or respawn.
pub open spec fn gone(
    state: State,
    reason: RestartReason,
    shutdown: bool,
    escalated: bool,
    ctx: Ctx,
) -> Outcome {
    if shutdown {
        (state, ctx, seq![Action::SendDrainAlert { reason, escalated }, Action::Exit(0)])
    } else {
        (
            State::Respawning { shutdown_pending: false },
            Ctx { failures: 0, ..ctx },
            seq![
                Action::SendDrainAlert { reason, escalated },
                Action::DisarmActionTimer,
                Action::Spawn,
            ],
        )
    }
}

/// The transitions of a running target.
pub open spec fn from_running(ctx: Ctx, event: Event, samples: Samples) -> Outcome {
    match event {
        Event::ChildExited => crashed(ctx, samples.elapsed),
        Event::OperatorStop => drained(RestartReason::Periodic, true, ctx),
        Event::Tick | Event::PsiEdge => {
            let seen = if event is Tick && samples.elapsed@ >= ctx.startup_grace@ {
                Ctx { failures: 0, ..ctx }
            } else {
                ctx
            };
            match decided(samples.inputs(event is PsiEdge), ctx.limits) {
                Decision::Restart(reason) => drained(reason, false, seen),
                Decision::Keep => (State::Running, seen, seq![]),
            }
        },
        Event::TimerExpired | Event::SpawnResult(_) => (State::Running, ctx, seq![]),
    }
}

/// The transitions of a target that is being drained.
pub open spec fn from_draining(
    reason: RestartReason,
    shutdown: bool,
    ctx: Ctx,
    event: Event,
) -> Outcome {
    let state = State::Draining { reason, shutdown };
    match event {
        Event::ChildExited => gone(state, reason, shutdown, false, ctx),
        Event::TimerExpired => escalated(reason, shutdown, ctx),
        Event::OperatorStop => escalated(reason, true, ctx),
        Event::Tick | Event::PsiEdge | Event::SpawnResult(_) => (state, ctx, seq![]),
    }
}

/// The transitions of a target that was sent SIGKILL.
pub open spec fn from_killing(
    reason: RestartReason,
    shutdown: bool,
    ctx: Ctx,
    event: Event,
) -> Outcome {
    let state = State::Killing { reason, shutdown };
    match event {
        Event::ChildExited => gone(state, reason, shutdown, true, ctx),
        Event::TimerExpired => (state, ctx, seq![Action::Unkillable { reason }, Action::Exit(1)]),
        Event::OperatorStop => (State::Killing { reason, shutdown: true }, ctx, seq![]),
        Event::Tick | Event::PsiEdge | Event::SpawnResult(_) => (state, ctx, seq![]),
    }
}

/// The transitions while a respawn is being waited for.
pub open spec fn from_backoff(ctx: Ctx, event: Event) -> Outcome {
    match event {
        Event::TimerExpired => (
            State::Respawning { shutdown_pending: false },
            ctx,
            seq![Action::Spawn],
        ),
        Event::OperatorStop => (State::Backoff, ctx, seq![Action::Exit(0)]),
        Event::ChildExited | Event::Tick | Event::PsiEdge | Event::SpawnResult(_) => (
            State::Backoff,
            ctx,
            seq![],
        ),
    }
}

/// The transitions while the result of a spawn is being waited for.
pub open spec fn from_respawning(shutdown_pending: bool, ctx: Ctx, event: Event) -> Outcome {
    match event {
        Event::SpawnResult(SpawnOutcome::Started) => {
            let counted = Ctx { restart_total: next_total(ctx.restart_total), ..ctx };
            if shutdown_pending {
                drained(RestartReason::Periodic, true, counted)
            } else {
                (State::Running, counted, seq![])
            }
        },
        Event::SpawnResult(SpawnOutcome::Failed) => {
            if shutdown_pending {
                (State::Backoff, ctx, seq![Action::Exit(0)])
            } else {
                let counted = Ctx { failures: next_streak(ctx.failures), ..ctx };
                (State::Backoff, counted, after_failure(counted))
            }
        },
        Event::OperatorStop => (State::Respawning { shutdown_pending: true }, ctx, seq![]),
        Event::ChildExited | Event::Tick | Event::PsiEdge | Event::TimerExpired => (
            State::Respawning { shutdown_pending },
            ctx,
            seq![],
        ),
    }
}

/// The whole transition relation.
pub open spec fn stepped(state: State, ctx: Ctx, event: Event, samples: Samples) -> Outcome {
    match state {
        State::Running => from_running(ctx, event, samples),
        State::Draining { reason, shutdown } => from_draining(reason, shutdown, ctx, event),
        State::Killing { reason, shutdown } => from_killing(reason, shutdown, ctx, event),
        State::Backoff => from_backoff(ctx, event),
        State::Respawning { shutdown_pending } => from_respawning(shutdown_pending, ctx, event),
    }
}

impl Samples {
    /// The samples as the decision sees them; a pressure edge counts as pressure.
    pub open spec fn inputs(self, psi_edge: bool) -> Inputs {
        Inputs {
            elapsed: self.elapsed,
            mem_ratio: self.mem_ratio,
            psi_triggered: self.psi_triggered || psi_edge,
            heartbeat: self.heartbeat,
        }
    }

    /// Samples for steps from states that do not consult them, which is every
    /// state but `Running`.
    pub fn placeholder() -> (s: Samples)
        ensures
            s.elapsed@ == 0,
            s.mem_ratio is None,
            !s.psi_triggered,
            s.heartbeat == HeartbeatInput::Disabled,
    {
        Samples {
            elapsed: Duration::zero(),
            mem_ratio: None,
            psi_triggered: false,
            heartbeat: HeartbeatInput::Disabled,
        }
    }

    fn to_inputs(self, psi_override: bool) -> (i: Inputs)
        ensures
            i == self.inputs(psi_override),
    {
        Inputs {
            elapsed: self.elapsed,
            mem_ratio: self.mem_ratio,
            psi_triggered: self.psi_triggered || psi_override,
            heartbeat: self.heartbeat,
        }
    }
}

/// The restart count that a snapshot reports.
fn restart_count(restart_total: u64, will_restart: bool) -> (n: u64)
    ensures
        n == reported_count(restart_total, will_restart),
{
    if will_restart {
        restart_total.saturating_add(1)
    } else {
        restart_total
    }
}

/// How long to wait before the next respawn.
fn backoff_delay(backoff: Duration, failures: u32) -> (d: Duration)
    ensures
        d == respawn_delay(backoff, failures),
        failures == 0 ==> d@ == 1_000_000,
        failures >= 1 && backoff@ * failures <= 18_446_744_073_709_551_615_999_999_999 ==> d@
            == backoff@ * failures,
        failures >= 1 && backoff@ * failures > 18_446_744_073_709_551_615_999_999_999 ==> d@
            == 18_446_744_073_709_551_615_999_999_999,
{
    if failures == 0 {
        Duration::from_millis(1)
    } else {
        backoff.saturating_mul(failures)
    }
}

/// Begin a drain: capture the snapshot, signal, arm the grace timer.
fn begin_drain(reason: RestartReason, shutdown: bool, ctx: &Ctx) -> (r: (State, Vec<Action>))
    ensures
        (r.0, *ctx, r.1@) == drained(reason, shutdown, *ctx),
{
    let count: u64 = restart_count(ctx.restart_total, !shutdown);
    (
        State::Draining { reason, shutdown },
        vec![
            Action::CaptureSnapshot { reason, restart_count: count },
            Action::SignalGraceful,
            Action::ArmActionTimer(ctx.grace_period),
        ],
    )
}

/// Escalate a stuck drain: capture the snapshot, kill, arm the confirm timer.
fn escalate(reason: RestartReason, shutdown: bool, ctx: &Ctx) -> (r: (State, Vec<Action>))
    ensures
        (r.0, *ctx, r.1@) == escalated(reason, shutdown, *ctx),
{
    let count: u64 = restart_count(ctx.restart_total, !shutdown);
    (
        State::Killing { reason, shutdown },
        vec![
            Action::CaptureSnapshot { reason, restart_count: count },
            Action::SignalKill,
            Action::ArmActionTimer(kill_confirm()),
        ],
    )
}

/// Give up or wait, as the streak demands.
fn push_after_failure(ctx: &Ctx, acts: &mut Vec<Action>)
    ensures
        final(acts)@ == old(acts)@ + after_failure(*ctx),
{
    if ctx.failures >= ctx.max_failures {
        acts.push(
            Action::CrashLoopGiveUp { failures: ctx.failures, restart_count: ctx.restart_total },
        );
        acts.push(Action::Exit(1));
    } else {
        acts.push(Action::ArmActionTimer(backoff_delay(ctx.backoff, ctx.failures)));
    }
}

/// Account for a crash and go into backoff.
fn handle_crash(ctx: &mut Ctx, lived: Duration) -> (r: (State, Vec<Action>))
    ensures
        (r.0, *final(ctx), r.1@) == crashed(*old(ctx), lived),
{
    let healthy = lived.at_least(ctx.startup_grace);
    if healthy {
        ctx.failures = 0;
    } else {
        ctx.failures = ctx.failures.saturating_add(1);
    }
    let mut acts = vec![Action::LogCrash { healthy, lived }];
    push_after_failure(ctx, &mut acts);
    (State::Backoff, acts)
}

/// The target is gone: report, then exit or respawn.
fn handle_gone(
    state: State,
    reason: RestartReason,
    shutdown: bool,
    escalated: bool,
    ctx: &mut Ctx,
) -> (r: (State, Vec<Action>))
    ensures
        (r.0, *final(ctx), r.1@) == gone(state, reason, shutdown, escalated, *old(ctx)),
{
    let mut acts = vec![Action::SendDrainAlert { reason, escalated }];
    if shutdown {
        // Exiting ends the supervisor, so the returned state is never seen again.
        acts.push(Action::Exit(0));
        (state, acts)
    } else {
        ctx.failures = 0;
        acts.push(Action::DisarmActionTimer);
        acts.push(Action::Spawn);
        (State::Respawning { shutdown_pending: false }, acts)
    }
}

/// Take one step: the next state and the actions to perform in order.
pub fn step(state: State, ctx: &mut Ctx, event: Event, samples: &Samples) -> (r: (
    State,
    Vec<Action>,
))
    ensures
        (r.0, *final(ctx), r.1@) == stepped(state, *old(ctx), event, *samples),
{
    match state {
        State::Running => match event {
            Event::ChildExited => handle_crash(ctx, samples.elapsed),
            Event::OperatorStop => begin_drain(RestartReason::Periodic, true, ctx),
            Event::Tick | Event::PsiEdge => {
                let tick = matches!(event, Event::Tick);
                if tick && samples.elapsed.at_least(ctx.startup_grace) {
                    ctx.failures = 0;
                }
                let inputs = samples.to_inputs(!tick);
                match evaluate(&inputs, &ctx.limits) {
                    Decision::Restart(reason) => begin_drain(reason, false, ctx),
                    Decision::Keep => (State::Running, Vec::new()),
                }
            },
            Event::TimerExpired | Event::SpawnResult(_) => (State::Running, Vec::new()),
        },
        State::Draining { reason, shutdown } => match event {
            Event::ChildExited => handle_gone(state, reason, shutdown, false, ctx),
            Event::TimerExpired => escalate(reason, shutdown, ctx),
            Event::OperatorStop => escalate(reason, true, ctx),
            Event::Tick | Event::PsiEdge | Event::SpawnResult(_) => (state, Vec::new()),
        },
        State::Killing { reason, shutdown } => match event {
            Event::ChildExited => handle_gone(state, reason, shutdown, true, ctx),
            // A stop is recorded without a second SIGKILL or snapshot.
            Event::OperatorStop => (State::Killing { reason, shutdown: true }, Vec::new()),
            Event::TimerExpired => (state, vec![Action::Unkillable { reason }, Action::Exit(1)]),
            Event::Tick | Event::PsiEdge | Event::SpawnResult(_) => (state, Vec::new()),
        },
        State::Backoff => match event {
            Event::TimerExpired => (
                State::Respawning { shutdown_pending: false },
                vec![Action::Spawn],
            ),
            Event::OperatorStop => (State::Backoff, vec![Action::Exit(0)]),
            Event::ChildExited | Event::Tick | Event::PsiEdge | Event::SpawnResult(_) => {
                (State::Backoff, Vec::new())
            },
        },
        State::Respawning { shutdown_pending } => match event {
            Event::SpawnResult(SpawnOutcome::Started) => {
                ctx.restart_total = ctx.restart_total.saturating_add(1);
                if shutdown_pending {
                    // A stop arrived in between: the new target is up, drain it.
                    begin_drain(RestartReason::Periodic, true, ctx)
                } else {
                    (State::Running, Vec::new())
                }
            },
            Event::SpawnResult(SpawnOutcome::Failed) => {
                if shutdown_pending {
                    // Nothing to drain, and the stop was asked for.
                    (State::Backoff, vec![Action::Exit(0)])
                } else {
                    ctx.failures = ctx.failures.saturating_add(1);
                    let mut acts = Vec::new();
                    push_after_failure(ctx, &mut acts);
                    (State::Backoff, acts)
                }
            },
            // The result is on its way: record the stop and let it act.
            Event::OperatorStop => (State::Respawning { shutdown_pending: true }, Vec::new()),
            Event::ChildExited | Event::Tick | Event::PsiEdge | Event::TimerExpired => {
                (state, Vec::new())
            },
        },
    }
}

} // verus!
