//! What holds of the state machine as a whole: over every step, and over every
//! run of steps.

use crate::alert::{severity_of, Severity};
use crate::binary64::Binary64;
use crate::cgroup::{exhausted_limit_is_over_every_threshold, is_ratio};
use crate::decision::{
    decided, past_grace, periodic_restart_stays_due, Decision, Inputs, RestartReason,
};
use crate::diagnostics::Snapshot;
use crate::fsm::{
    next_streak, next_total, reported_count, respawn_delay, stepped, Action, Ctx, Event, Outcome,
    Samples, SpawnOutcome, State,
};
use crate::supervisor::{commands_of, stash_left, CommandView};
use vstd::prelude::*;

verus! {

/// One thing that happens, with the samples taken for it.
pub type Happening = (Event, Samples);

/// Whether the actions end the supervisor.
pub open spec fn exits(acts: Seq<Action>) -> bool {
    acts.len() > 0 && acts.last() is Exit
}

/// What a run of happenings yields: the last state and accounting, and all the
/// actions in order. The run ends early with the supervisor.
pub open spec fn run(state: State, ctx: Ctx, steps: Seq<Happening>) -> Outcome
    decreases steps.len(),
{
    if steps.len() == 0 {
        (state, ctx, seq![])
    } else {
        let (s, c, acts) = stepped(state, ctx, steps[0].0, steps[0].1);
        if exits(acts) {
            (s, c, acts)
        } else {
            let (last, total, rest) = run(s, c, steps.drop_first());
            (last, total, acts + rest)
        }
    }
}

/// A stop was asked for and has not been carried out yet.
pub open spec fn stopping(state: State) -> bool {
    match state {
        State::Draining { shutdown, .. } => shutdown,
        State::Killing { shutdown, .. } => shutdown,
        State::Respawning { shutdown_pending } => shutdown_pending,
        State::Running | State::Backoff => false,
    }
}

/// Whether a spawn is among the actions.
pub open spec fn spawns(acts: Seq<Action>) -> bool {
    exists|i: int| 0 <= i < acts.len() && #[trigger] acts[i] is Spawn
}

/// Nothing is done after an exit: it comes last, and only once.
pub proof fn exit_comes_last(state: State, ctx: Ctx, event: Event, samples: Samples)
    ensures
        forall|i: int|
            0 <= i < stepped(state, ctx, event, samples).2.len() && #[trigger] stepped(
                state,
                ctx,
                event,
                samples,
            ).2[i] is Exit ==> i == stepped(state, ctx, event, samples).2.len() - 1,
{
}

/// A failing exit is never silent: the crash-loop or un-killable alert directly
/// precedes it. So does the drain alert before an exit that follows a drain.
pub proof fn alert_precedes_exit(state: State, ctx: Ctx, event: Event, samples: Samples)
    requires
        exits(stepped(state, ctx, event, samples).2),
    ensures
        ({
            let acts = stepped(state, ctx, event, samples).2;
            let n = acts.len();
            &&& acts.last() == Action::Exit(0) || acts.last() == Action::Exit(1)
            &&& acts.last() == Action::Exit(1) ==> n >= 2 && (acts[n - 2] is CrashLoopGiveUp
                || acts[n - 2] is Unkillable)
            &&& (acts.last() == Action::Exit(0) && (state is Draining || state is Killing))
                ==> n == 2 && acts[0] is SendDrainAlert
        }),
{
}

/// An asked-for stop is taken up in whatever state it arrives: the supervisor
/// exits with success, or is stopping from then on.
pub proof fn stop_is_taken_up(state: State, ctx: Ctx, samples: Samples)
    ensures
        ({
            let (next, _, acts) = stepped(state, ctx, Event::OperatorStop, samples);
            ||| acts == seq![Action::Exit(0)]
            ||| !exits(acts) && stopping(next)
        }),
{
}

/// Once a stop was asked for, nothing undoes it: every later step keeps stopping
/// or exits, and none spawns a target.
pub proof fn stop_is_kept(state: State, ctx: Ctx, event: Event, samples: Samples)
    requires
        stopping(state),
    ensures
        ({
            let (next, _, acts) = stepped(state, ctx, event, samples);
            &&& exits(acts) || stopping(next)
            &&& !spawns(acts)
        }),
{
}

/// An operator's stop is never lost: whatever happens after it, in any order, no
/// target is spawned again, and the supervisor either exits or is still
/// stopping.
pub proof fn stop_is_never_lost(state: State, ctx: Ctx, steps: Seq<Happening>)
    requires
        steps.len() > 0,
        steps[0].0 == Event::OperatorStop,
    ensures
        !spawns(run(state, ctx, steps).2),
        exits(run(state, ctx, steps).2) || stopping(run(state, ctx, steps).0),
{
    let (s, c, acts) = stepped(state, ctx, Event::OperatorStop, steps[0].1);
    stop_is_taken_up(state, ctx, steps[0].1);
    if !exits(acts) {
        lemma_stopping_run(s, c, steps.drop_first());
        let rest = run(s, c, steps.drop_first()).2;
        assert forall|i: int| 0 <= i < (acts + rest).len() implies !(#[trigger] (acts + rest)[i]
            is Spawn) by {
            if i >= acts.len() {
                assert(rest[i - acts.len()] == (acts + rest)[i]);
            }
        }
        if exits(rest) {
            assert((acts + rest).last() == rest.last());
        }
    }
}

proof fn lemma_stopping_run(state: State, ctx: Ctx, steps: Seq<Happening>)
    requires
        stopping(state),
    ensures
        !spawns(run(state, ctx, steps).2),
        exits(run(state, ctx, steps).2) || stopping(run(state, ctx, steps).0),
    decreases steps.len(),
{
    if steps.len() > 0 {
        let (s, c, acts) = stepped(state, ctx, steps[0].0, steps[0].1);
        stop_is_kept(state, ctx, steps[0].0, steps[0].1);
        if !exits(acts) {
            lemma_stopping_run(s, c, steps.drop_first());
            let rest = run(s, c, steps.drop_first()).2;
            assert forall|i: int| 0 <= i < (acts + rest).len() implies !(#[trigger] (acts
                + rest)[i] is Spawn) by {
                if i < acts.len() {
                    assert(acts[i] == (acts + rest)[i]);
                } else {
                    assert(rest[i - acts.len()] == (acts + rest)[i]);
                }
            }
            if exits(rest) {
                assert((acts + rest).last() == rest.last());
            }
        }
    }
}

/// Whether the action is a signal to the target.
pub open spec fn is_signal(act: Action) -> bool {
    act is SignalGraceful || act is SignalKill
}

/// The target is looked at while it is still alive: directly before every signal
/// stands a snapshot, directly after it the deadline.
pub proof fn snapshot_precedes_signal(
    state: State,
    ctx: Ctx,
    event: Event,
    samples: Samples,
    i: int,
)
    requires
        0 <= i < stepped(state, ctx, event, samples).2.len(),
        is_signal(stepped(state, ctx, event, samples).2[i]),
    ensures
        ({
            let acts = stepped(state, ctx, event, samples).2;
            &&& 1 <= i < acts.len() - 1
            &&& acts[i - 1] is CaptureSnapshot
            &&& acts[i + 1] is ArmActionTimer
        }),
{
}

/// The timer is disarmed, and the old target reported, before a drained target is
/// replaced.
pub proof fn replacement_is_ordered(
    state: State,
    ctx: Ctx,
    event: Event,
    samples: Samples,
    i: int,
)
    requires
        state is Draining || state is Killing,
        0 <= i < stepped(state, ctx, event, samples).2.len(),
        stepped(state, ctx, event, samples).2[i] is Spawn,
    ensures
        ({
            let acts = stepped(state, ctx, event, samples).2;
            &&& i == 2 && acts.len() == 3
            &&& acts[0] is SendDrainAlert
            &&& acts[1] is DisarmActionTimer
        }),
{
}

/// The reason that the kept snapshot was taken for, after `act`: a snapshot is kept, an
/// alert uses it up.
pub open spec fn stash_after(stash: Option<RestartReason>, act: Action) -> Option<RestartReason> {
    match act {
        Action::CaptureSnapshot { reason, .. } => Some(reason),
        Action::SendDrainAlert { reason, escalated } => if severity_of(reason, escalated, false)
            is Some {
            None
        } else {
            stash
        },
        Action::Unkillable { .. } => None,
        _ => stash,
    }
}

/// The kept snapshot after a list of actions.
pub open spec fn stash_after_all(
    stash: Option<RestartReason>,
    acts: Seq<Action>,
) -> Option<RestartReason>
    decreases acts.len(),
{
    if acts.len() == 0 {
        stash
    } else {
        stash_after(stash_after_all(stash, acts.drop_last()), acts.last())
    }
}

/// Every drain and un-killable alert in the list finds a snapshot that was taken
/// for its own reason.
pub open spec fn alerts_find_snapshot(stash: Option<RestartReason>, acts: Seq<Action>) -> bool {
    forall|i: int|
        0 <= i < acts.len() ==> match #[trigger] acts[i] {
            Action::SendDrainAlert { reason, .. } => stash_after_all(stash, acts.take(i)) == Some(
                reason,
            ),
            Action::Unkillable { reason } => stash_after_all(stash, acts.take(i)) == Some(reason),
            _ => true,
        }
}

/// While a target is being taken down, the snapshot for it is kept.
pub open spec fn stash_matches(state: State, stash: Option<RestartReason>) -> bool {
    match state {
        State::Draining { reason, .. } => stash == Some(reason),
        State::Killing { reason, .. } => stash == Some(reason),
        _ => true,
    }
}

proof fn lemma_stash_of_two(stash: Option<RestartReason>, acts: Seq<Action>)
    ensures
        acts.len() == 0 ==> stash_after_all(stash, acts) == stash,
        acts.len() == 1 ==> stash_after_all(stash, acts) == stash_after(stash, acts[0]),
        acts.len() == 2 ==> stash_after_all(stash, acts) == stash_after(
            stash_after(stash, acts[0]),
            acts[1],
        ),
        acts.len() == 3 ==> stash_after_all(stash, acts) == stash_after(
            stash_after(stash_after(stash, acts[0]), acts[1]),
            acts[2],
        ),
{
    reveal_with_fuel(stash_after_all, 4);
}

/// One step keeps the snapshot discipline.
pub proof fn step_keeps_stash(
    state: State,
    ctx: Ctx,
    event: Event,
    samples: Samples,
    stash: Option<RestartReason>,
)
    requires
        stash_matches(state, stash),
    ensures
        ({
            let (next, _, acts) = stepped(state, ctx, event, samples);
            &&& alerts_find_snapshot(stash, acts)
            &&& exits(acts) || stash_matches(next, stash_after_all(stash, acts))
        }),
{
    let acts = stepped(state, ctx, event, samples).2;
    assert(acts.len() <= 3);
    lemma_stash_of_two(stash, acts);
    assert forall|i: int| 0 <= i < acts.len() implies match #[trigger] acts[i] {
        Action::SendDrainAlert { reason, .. } => stash_after_all(stash, acts.take(i)) == Some(
            reason,
        ),
        Action::Unkillable { reason } => stash_after_all(stash, acts.take(i)) == Some(reason),
        _ => true,
    } by {
        lemma_stash_of_two(stash, acts.take(i));
    }
}

proof fn lemma_stash_concat(stash: Option<RestartReason>, a: Seq<Action>, b: Seq<Action>)
    ensures
        stash_after_all(stash, a + b) == stash_after_all(stash_after_all(stash, a), b),
    decreases b.len(),
{
    if b.len() == 0 {
        assert(a + b == a);
    } else {
        assert((a + b).drop_last() == a + b.drop_last());
        assert((a + b).last() == b.last());
        lemma_stash_concat(stash, a, b.drop_last());
    }
}

/// Over any run from a running target, every drain and un-killable alert finds the
/// snapshot that was taken of the living target, for its own reason.
pub proof fn alerts_always_find_snapshot(
    state: State,
    ctx: Ctx,
    steps: Seq<Happening>,
    stash: Option<RestartReason>,
)
    requires
        stash_matches(state, stash),
    ensures
        alerts_find_snapshot(stash, run(state, ctx, steps).2),
    decreases steps.len(),
{
    if steps.len() > 0 {
        let (s, c, acts) = stepped(state, ctx, steps[0].0, steps[0].1);
        step_keeps_stash(state, ctx, steps[0].0, steps[0].1, stash);
        if !exits(acts) {
            let mid = stash_after_all(stash, acts);
            alerts_always_find_snapshot(s, c, steps.drop_first(), mid);
            let rest = run(s, c, steps.drop_first()).2;
            assert forall|i: int| 0 <= i < (acts + rest).len() implies match #[trigger] (acts
                + rest)[i] {
                Action::SendDrainAlert { reason, .. } => stash_after_all(
                    stash,
                    (acts + rest).take(i),
                ) == Some(reason),
                Action::Unkillable { reason } => stash_after_all(stash, (acts + rest).take(i))
                    == Some(reason),
                _ => true,
            } by {
                if i < acts.len() {
                    assert((acts + rest).take(i) == acts.take(i));
                    assert(acts[i] == (acts + rest)[i]);
                } else {
                    let k = i - acts.len();
                    assert((acts + rest).take(i) == acts + rest.take(k));
                    assert(rest[k] == (acts + rest)[i]);
                    lemma_stash_concat(stash, acts, rest.take(k));
                }
            }
        }
    }
}

/// Whether the state waits for a deadline.
pub open spec fn awaits_deadline(state: State) -> bool {
    state is Draining || state is Killing || state is Backoff
}

/// Whether the action timer is armed after a list of actions.
pub open spec fn armed_after(armed: bool, acts: Seq<Action>) -> bool
    decreases acts.len(),
{
    if acts.len() == 0 {
        armed
    } else {
        match acts.last() {
            Action::ArmActionTimer(_) => true,
            Action::DisarmActionTimer => false,
            _ => armed_after(armed, acts.drop_last()),
        }
    }
}

/// Whether the timer is armed when the actions on `event` begin: one that expired
/// is not.
pub open spec fn armed_at(armed: bool, event: Event) -> bool {
    armed && event != Event::TimerExpired
}

/// There is no waiting forever: a state that waits for a deadline is only ever
/// entered, or stayed in, with the timer armed.
pub proof fn deadline_is_always_armed(
    state: State,
    ctx: Ctx,
    event: Event,
    samples: Samples,
    armed: bool,
)
    requires
        awaits_deadline(state) ==> armed,
    ensures
        ({
            let (next, _, acts) = stepped(state, ctx, event, samples);
            exits(acts) || (awaits_deadline(next) ==> armed_after(armed_at(armed, event), acts))
        }),
{
    reveal_with_fuel(armed_after, 4);
}

/// Whether the timer is armed after a run of happenings.
pub open spec fn armed_through(
    state: State,
    ctx: Ctx,
    steps: Seq<Happening>,
    armed: bool,
) -> bool
    decreases steps.len(),
{
    if steps.len() == 0 {
        armed
    } else {
        let (s, c, acts) = stepped(state, ctx, steps[0].0, steps[0].1);
        let then_armed = armed_after(armed_at(armed, steps[0].0), acts);
        if exits(acts) {
            then_armed
        } else {
            armed_through(s, c, steps.drop_first(), then_armed)
        }
    }
}

/// There is no waiting forever, whatever happens and in whatever order: after any run a
/// supervisor that still runs and waits for a deadline has the timer armed.
pub proof fn no_run_waits_forever(state: State, ctx: Ctx, steps: Seq<Happening>, armed: bool)
    requires
        awaits_deadline(state) ==> armed,
    ensures
        exits(run(state, ctx, steps).2) || (awaits_deadline(run(state, ctx, steps).0)
            ==> armed_through(state, ctx, steps, armed)),
    decreases steps.len(),
{
    if steps.len() > 0 {
        let (s, c, acts) = stepped(state, ctx, steps[0].0, steps[0].1);
        deadline_is_always_armed(state, ctx, steps[0].0, steps[0].1, armed);
        if !exits(acts) {
            no_run_waits_forever(
                s,
                c,
                steps.drop_first(),
                armed_after(armed_at(armed, steps[0].0), acts),
            );
            let rest = run(s, c, steps.drop_first()).2;
            if exits(rest) {
                assert((acts + rest).last() == rest.last());
            }
        }
    }
}

/// A spawn is awaited exactly when one was commanded last: the state turns to
/// `Respawning` only together with the command.
pub proof fn respawning_means_spawn_commanded(
    state: State,
    ctx: Ctx,
    event: Event,
    samples: Samples,
)
    ensures
        ({
            let (next, _, acts) = stepped(state, ctx, event, samples);
            &&& spawns(acts) <==> (acts.len() > 0 && acts.last() is Spawn)
            &&& spawns(acts) ==> next == State::Respawning { shutdown_pending: false } && !(state
                is Respawning)
            &&& (next is Respawning && !(state is Respawning)) ==> spawns(acts)
        }),
{
    let acts = stepped(state, ctx, event, samples).2;
    if acts.len() > 0 && acts.last() is Spawn {
        assert(acts[acts.len() - 1] is Spawn);
    }
}

/// How many deadlines the takedown of the target can still run into.
pub open spec fn deadlines_left(state: State) -> nat {
    match state {
        State::Draining { .. } => 2,
        State::Killing { .. } => 1,
        _ => 0,
    }
}

/// How many of the happenings are expired timers.
pub open spec fn expiries(steps: Seq<Happening>) -> nat
    decreases steps.len(),
{
    if steps.len() == 0 {
        0
    } else {
        (if steps[0].0 == Event::TimerExpired {
            1nat
        } else {
            0
        }) + expiries(steps.drop_first())
    }
}

/// A takedown always comes to an end: a target that never exits costs at most the
/// grace period and the confirm window, and then the supervisor exits.
pub proof fn takedown_is_bounded(state: State, ctx: Ctx, steps: Seq<Happening>)
    requires
        state is Draining || state is Killing,
        forall|i: int| 0 <= i < steps.len() ==> (#[trigger] steps[i]).0 != Event::ChildExited,
        expiries(steps) >= deadlines_left(state),
    ensures
        exits(run(state, ctx, steps).2),
        run(state, ctx, steps).2.last() == Action::Exit(1),
    decreases steps.len(),
{
    let (s, c, acts) = stepped(state, ctx, steps[0].0, steps[0].1);
    assert(steps[0].0 != Event::ChildExited);
    if !exits(acts) {
        let tail = steps.drop_first();
        assert forall|i: int| 0 <= i < tail.len() implies (#[trigger] tail[i]).0
            != Event::ChildExited by {
            assert(tail[i] == steps[i + 1]);
        }
        assert(expiries(tail) >= deadlines_left(s));
        takedown_is_bounded(s, c, tail);
        let rest = run(s, c, tail).2;
        assert((acts + rest).last() == rest.last());
    }
}

/// Escalation happens once: a target that was sent SIGKILL is neither signalled
/// nor looked at again, and SIGKILL is only ever sent to a target that was asked
/// gracefully first.
pub proof fn escalation_is_idempotent(state: State, ctx: Ctx, event: Event, samples: Samples, i: int)
    requires
        0 <= i < stepped(state, ctx, event, samples).2.len(),
    ensures
        ({
            let acts = stepped(state, ctx, event, samples).2;
            &&& state is Killing ==> !is_signal(acts[i]) && !(acts[i] is CaptureSnapshot)
            &&& acts[i] is SignalKill ==> state is Draining
        }),
{
}

/// Lifetime restarts are counted in one place: the total grows by one exactly when
/// a commanded spawn is confirmed. The configuration never changes.
pub proof fn restarts_are_counted_once(state: State, ctx: Ctx, event: Event, samples: Samples)
    ensures
        ({
            let after = stepped(state, ctx, event, samples).1;
            &&& after.restart_total == if state is Respawning && event == Event::SpawnResult(
                SpawnOutcome::Started,
            ) {
                next_total(ctx.restart_total)
            } else {
                ctx.restart_total
            }
            &&& after == Ctx {
                restart_total: after.restart_total,
                failures: after.failures,
                ..ctx
            }
        }),
{
}

/// A snapshot for a restart counts that restart already; one for a shutdown does
/// not.
pub proof fn snapshot_reports_count(
    state: State,
    ctx: Ctx,
    event: Event,
    samples: Samples,
    i: int,
)
    requires
        0 <= i < stepped(state, ctx, event, samples).2.len(),
        stepped(state, ctx, event, samples).2[i] is CaptureSnapshot,
    ensures
        ({
            let (next, after, acts) = stepped(state, ctx, event, samples);
            acts[i]->CaptureSnapshot_restart_count == reported_count(
                after.restart_total,
                !stopping(next),
            )
        }),
{
}

/// The failure streak grows only with a start that failed (a crash within the
/// startup grace, or a failed spawn) and ends only with a sign of health.
pub proof fn streak_counts_failed_starts(state: State, ctx: Ctx, event: Event, samples: Samples)
    ensures
        ({
            let after = stepped(state, ctx, event, samples).1;
            let early = samples.elapsed@ < ctx.startup_grace@;
            let crash = state == State::Running && event == Event::ChildExited;
            let failed_spawn = state == State::Respawning { shutdown_pending: false } && event
                == Event::SpawnResult(SpawnOutcome::Failed);
            let healthy = (crash && !early) || (state == State::Running && event == Event::Tick
                && !early) || ((state is Draining || state is Killing) && event
                == Event::ChildExited && !stopping(state));
            after.failures == if (crash && early) || failed_spawn {
                next_streak(ctx.failures)
            } else if healthy {
                0
            } else {
                ctx.failures
            }
        }),
{
}

/// The crash loop is given up exactly when the counted streak has reached its
/// maximum; below it the wait is the backoff times the streak.
pub proof fn give_up_exactly_at_maximum(state: State, ctx: Ctx, event: Event, samples: Samples)
    requires
        state == State::Running && event == Event::ChildExited || state == (State::Respawning {
            shutdown_pending: false,
        }) && event == Event::SpawnResult(SpawnOutcome::Failed),
    ensures
        ({
            let (next, after, acts) = stepped(state, ctx, event, samples);
            let n = acts.len();
            &&& next == State::Backoff
            &&& exits(acts) <==> after.failures >= ctx.max_failures
            &&& exits(acts) ==> acts.last() == Action::Exit(1) && acts[n - 2]
                == Action::CrashLoopGiveUp {
                failures: after.failures,
                restart_count: ctx.restart_total,
            }
            &&& !exits(acts) ==> acts.last() == Action::ArmActionTimer(
                respawn_delay(ctx.backoff, after.failures),
            )
        }),
{
}

/// One turn of a crash loop: the target dies, the backoff ends, a new one starts.
pub open spec fn crash_cycle(samples: Samples) -> Seq<Happening> {
    seq![
        (Event::ChildExited, samples),
        (Event::TimerExpired, samples),
        (Event::SpawnResult(SpawnOutcome::Started), samples),
    ]
}

/// `n` turns of a crash loop.
pub open spec fn crash_cycles(samples: Samples, n: nat) -> Seq<Happening>
    decreases n,
{
    if n == 0 {
        seq![]
    } else {
        crash_cycle(samples) + crash_cycles(samples, (n - 1) as nat)
    }
}

proof fn lemma_run_concat(state: State, ctx: Ctx, a: Seq<Happening>, b: Seq<Happening>)
    requires
        !exits(run(state, ctx, a).2),
    ensures
        ({
            let (s, c, acts) = run(state, ctx, a);
            let (last, total, rest) = run(s, c, b);
            run(state, ctx, a + b) == (last, total, acts + rest)
        }),
    decreases a.len(),
{
    if a.len() == 0 {
        assert(a + b == b);
        assert(seq![] + run(state, ctx, b).2 == run(state, ctx, b).2);
    } else {
        let (s, c, acts) = stepped(state, ctx, a[0].0, a[0].1);
        let tail = a.drop_first();
        let ra = run(s, c, tail).2;
        if !exits(acts) {
            if exits(ra) {
                assert((acts + ra).last() == ra.last());
            }
            lemma_run_concat(s, c, tail, b);
            assert((a + b).drop_first() == tail + b);
            let (s1, c1, _) = run(s, c, tail);
            let rest = run(s1, c1, b).2;
            assert(acts + (ra + rest) == (acts + ra) + rest);
        }
    }
}

/// A target that keeps dying within the startup grace is respawned until the
/// streak reaches its maximum, and no further: fewer crashes leave it running, the
/// last one ends the supervisor with a failure.
pub proof fn crash_loop_ends_at_maximum(ctx: Ctx, samples: Samples, n: nat)
    requires
        samples.elapsed@ < ctx.startup_grace@,
        ctx.failures + n < ctx.max_failures,
    ensures
        ({
            let (state, after, acts) = run(State::Running, ctx, crash_cycles(samples, n));
            &&& state == State::Running
            &&& !exits(acts)
            &&& after.failures == ctx.failures + n
            &&& after == Ctx { failures: after.failures, restart_total: after.restart_total, ..ctx }
            &&& exits(
                stepped(State::Running, after, Event::ChildExited, samples).2,
            ) <==> ctx.failures + n + 1 == ctx.max_failures
        }),
    decreases n,
{
    if n > 0 {
        let cycle = crash_cycle(samples);
        reveal_with_fuel(run, 4);
        let (s1, c1, a1) = stepped(State::Running, ctx, cycle[0].0, cycle[0].1);
        assert(cycle.drop_first().drop_first().drop_first() == Seq::<Happening>::empty());
        let (s2, c2, a2) = stepped(s1, c1, cycle[1].0, cycle[1].1);
        let (s3, c3, a3) = stepped(s2, c2, cycle[2].0, cycle[2].1);
        assert(cycle.drop_first()[0] == cycle[1]);
        assert(cycle.drop_first().drop_first()[0] == cycle[2]);
        let (s, c, acts) = run(State::Running, ctx, cycle);
        assert(acts == a1 + (a2 + (a3 + seq![])));
        assert(s == State::Running);
        crash_loop_ends_at_maximum(c, samples, (n - 1) as nat);
        lemma_run_concat(State::Running, ctx, cycle, crash_cycles(samples, (n - 1) as nat));
        let rest = run(s, c, crash_cycles(samples, (n - 1) as nat)).2;
        if rest.len() > 0 {
            assert((acts + rest).last() == rest.last());
        } else {
            assert(acts + rest == acts);
        }
    }
}

/// Samples are looked at only while the target is running.
pub proof fn samples_matter_only_while_running(
    state: State,
    ctx: Ctx,
    event: Event,
    a: Samples,
    b: Samples,
)
    requires
        state != State::Running,
    ensures
        stepped(state, ctx, event, a) == stepped(state, ctx, event, b),
{
}

/// A crash is accounted for as a crash even when triggers fire at the same time:
/// it is not drained, and a pressure edge or tick that was taken with it finds
/// nothing left to do.
pub proof fn crash_takes_precedence(ctx: Ctx, samples: Samples, later: Event, next_samples: Samples)
    requires
        later == Event::PsiEdge || later == Event::Tick,
    ensures
        ({
            let (state, after, acts) = stepped(State::Running, ctx, Event::ChildExited, samples);
            &&& state == State::Backoff
            &&& acts[0] is LogCrash
            &&& forall|i: int| 0 <= i < acts.len() ==> !is_signal(#[trigger] acts[i])
            &&& stepped(state, after, later, next_samples) == (
                State::Backoff,
                after,
                Seq::<Action>::empty(),
            )
        }),
{
}

/// A target that exits just when its deadline expires has exited cleanly: it is neither
/// killed nor reported as hung, and the expired deadline means nothing any more.
pub proof fn exit_at_the_deadline_is_clean(
    reason: RestartReason,
    ctx: Ctx,
    a: Samples,
    b: Samples,
)
    ensures
        ({
            let state = State::Draining { reason, shutdown: false };
            let steps = seq![(Event::ChildExited, a), (Event::TimerExpired, b)];
            let (last, _, acts) = run(state, ctx, steps);
            &&& last == State::Respawning { shutdown_pending: false }
            &&& acts == seq![
                Action::SendDrainAlert { reason, escalated: false },
                Action::DisarmActionTimer,
                Action::Spawn,
            ]
        }),
{
    let steps = seq![(Event::ChildExited, a), (Event::TimerExpired, b)];
    reveal_with_fuel(run, 3);
    assert(steps.drop_first()[0] == (Event::TimerExpired, b));
    assert(steps.drop_first().drop_first().len() == 0);
}

/// A pressure edge restarts exactly when a sample of pressure would, for the same reason:
/// grace and precedence hold for both ways of watching.
pub proof fn pressure_edge_counts_as_sample(ctx: Ctx, samples: Samples)
    ensures
        ({
            let edge = stepped(State::Running, ctx, Event::PsiEdge, samples);
            let sampled = stepped(
                State::Running,
                ctx,
                Event::Tick,
                Samples { psi_triggered: true, ..samples },
            );
            edge.0 == sampled.0 && edge.2 == sampled.2
        }),
{
}

/// A target that has used up its memory limit is drained on the next tick after the
/// startup grace, whatever else the samples say, provided that a threshold is set.
pub proof fn exhausted_memory_is_drained(
    ctx: Ctx,
    samples: Samples,
    current: u64,
    max: u64,
    ratio: Binary64,
)
    requires
        current >= max,
        current > 0,
        is_ratio(current, max, ratio),
        samples.mem_ratio == Some(ratio),
        ctx.limits.mem_threshold matches Some(t) && t.bits <= 0x3ff0_0000_0000_0000,
        past_grace(samples.inputs(false), ctx.limits),
    ensures
        ({
            let (next, _, acts) = stepped(State::Running, ctx, Event::Tick, samples);
            next is Draining && acts[1] is SignalGraceful
        }),
{
    exhausted_limit_is_over_every_threshold(current, max, ratio, ctx.limits.mem_threshold->0);
}

/// The reason that a kept snapshot was taken for.
pub open spec fn reason_kept(stash: Option<Snapshot>) -> Option<RestartReason> {
    match stash {
        Some(s) => Some(s.reason),
        None => None,
    }
}

/// The snapshot that the supervisor keeps after carrying out an action is the one that
/// the machine counts on; `taken` is what a capture yields.
pub proof fn kept_snapshot_follows_the_machine(
    action: Action,
    stash: Option<Snapshot>,
    taken: Snapshot,
)
    requires
        action matches Action::CaptureSnapshot { reason, .. } ==> taken.reason == reason,
    ensures
        reason_kept(
            if action is CaptureSnapshot {
                Some(taken)
            } else {
                stash_left(action, stash)
            },
        ) == stash_after(reason_kept(stash), action),
{
}

/// An alert that is due is sent with the snapshot that was taken for it: none is dropped
/// for want of one.
pub proof fn due_alerts_are_sent(
    action: Action,
    ctx: Ctx,
    stash: Option<Snapshot>,
    label: Seq<char>,
    pid: i32,
)
    requires
        action is SendDrainAlert || action is Unkillable,
        action matches Action::SendDrainAlert { reason, .. } ==> reason_kept(stash) == Some(reason),
        action matches Action::Unkillable { reason } ==> reason_kept(stash) == Some(reason),
    ensures
        ({
            let first = commands_of(action, ctx, stash, label, pid)[0];
            match action {
                Action::SendDrainAlert { reason, escalated } => match severity_of(
                    reason,
                    escalated,
                    false,
                ) {
                    Some(severity) => first == CommandView::Send { snapshot: stash->0, severity },
                    None => first is Log,
                },
                _ => first == CommandView::Send {
                    snapshot: stash->0,
                    severity: Severity::Critical,
                },
            }
        }),
{
}

/// A target that is asked to stop gets the whole configured grace period, and only one that
/// let it pass (or whose operator asks again) is sent SIGKILL; then two seconds remain. The
/// snapshot before the signal is taken for the reason of the takedown.
pub proof fn signals_are_followed_by_their_deadlines(
    state: State,
    ctx: Ctx,
    event: Event,
    samples: Samples,
    i: int,
)
    requires
        0 <= i < stepped(state, ctx, event, samples).2.len(),
    ensures
        ({
            let (next, _, acts) = stepped(state, ctx, event, samples);
            &&& acts[i] is SignalGraceful ==> {
                &&& i == 1 && acts.len() == 3
                &&& acts[2] == Action::ArmActionTimer(ctx.grace_period)
                &&& next matches State::Draining { reason, .. } && acts[0]
                    matches Action::CaptureSnapshot { reason: captured, .. } && captured == reason
                &&& state is Running || state is Respawning
            }
            &&& acts[i] is SignalKill ==> {
                &&& i == 1 && acts.len() == 3
                &&& acts[2] matches Action::ArmActionTimer(d) && d@ == 2_000_000_000
                &&& next matches State::Killing { reason, .. } && acts[0]
                    matches Action::CaptureSnapshot { reason: captured, .. } && captured == reason
                &&& state is Draining
                &&& event == Event::TimerExpired || event == Event::OperatorStop
            }
            &&& acts[i] is ArmActionTimer ==> i == acts.len() - 1
        }),
{
}

/// While the target is running, a tick drains it exactly when the samples call for a
/// restart, and a pressure edge exactly when the same samples with pressure do; for the
/// reason that is decided, and to be replaced.
pub proof fn running_target_is_drained_as_decided(ctx: Ctx, samples: Samples)
    ensures
        ({
            let inputs = Inputs {
                elapsed: samples.elapsed,
                mem_ratio: samples.mem_ratio,
                psi_triggered: samples.psi_triggered,
                heartbeat: samples.heartbeat,
            };
            let pressed = Inputs { psi_triggered: true, ..inputs };
            let (ticked, _, acts) = stepped(State::Running, ctx, Event::Tick, samples);
            let (edged, _, edge_acts) = stepped(State::Running, ctx, Event::PsiEdge, samples);
            &&& match decided(inputs, ctx.limits) {
                Decision::Keep => ticked == State::Running && acts.len() == 0,
                Decision::Restart(reason) => ticked == (State::Draining {
                    reason,
                    shutdown: false,
                }) && acts.len() == 3 && acts[1] == Action::SignalGraceful,
            }
            &&& match decided(pressed, ctx.limits) {
                Decision::Keep => edged == State::Running && edge_acts.len() == 0,
                Decision::Restart(reason) => edged == (State::Draining {
                    reason,
                    shutdown: false,
                }) && edge_acts.len() == 3 && edge_acts[1] == Action::SignalGraceful,
            }
        }),
{
}

/// A target that runs past its interval is drained by the next tick, however late that is.
pub proof fn overdue_target_is_drained(ctx: Ctx, samples: Samples)
    requires
        ctx.limits.restart_interval matches Some(d) && samples.elapsed@ >= d@,
    ensures
        ({
            let (next, _, acts) = stepped(State::Running, ctx, Event::Tick, samples);
            &&& next matches State::Draining { shutdown, .. } && !shutdown
            &&& acts[1] == Action::SignalGraceful
            &&& acts[2] == Action::ArmActionTimer(ctx.grace_period)
        }),
{
    periodic_restart_stays_due(
        Inputs {
            elapsed: samples.elapsed,
            mem_ratio: samples.mem_ratio,
            psi_triggered: samples.psi_triggered,
            heartbeat: samples.heartbeat,
        },
        ctx.limits,
    );
}

/// Backing off is linear in the streak: below the maximum, the wait after the `n`th failed
/// start in a row is `n` times the base, up to the longest span. So one failure waits for
/// the base and each further one adds the base.
pub proof fn backoff_grows_linearly(state: State, ctx: Ctx, event: Event, samples: Samples)
    requires
        (state == State::Running && event == Event::ChildExited && samples.elapsed@
            < ctx.startup_grace@) || (state == (State::Respawning { shutdown_pending: false })
            && event == Event::SpawnResult(SpawnOutcome::Failed)),
        ctx.failures + 1 < ctx.max_failures,
    ensures
        ({
            let n = ctx.failures + 1;
            let (next, after, acts) = stepped(state, ctx, event, samples);
            &&& next == State::Backoff
            &&& after.failures == n
            &&& acts.last() matches Action::ArmActionTimer(d) && {
                &&& ctx.backoff@ * n <= 18_446_744_073_709_551_615_999_999_999 ==> d@
                    == ctx.backoff@ * n
                &&& ctx.backoff@ * n > 18_446_744_073_709_551_615_999_999_999 ==> d@
                    == 18_446_744_073_709_551_615_999_999_999
            }
        }),
{
}

/// A crash after the startup grace ends the streak: the target is respawned after one
/// millisecond. It is logged with how long the target lived and whether that was healthy.
pub proof fn healthy_crash_respawns_at_once(ctx: Ctx, samples: Samples)
    ensures
        ({
            let (next, after, acts) = stepped(State::Running, ctx, Event::ChildExited, samples);
            &&& next == State::Backoff
            &&& acts[0] == Action::LogCrash {
                healthy: samples.elapsed@ >= ctx.startup_grace@,
                lived: samples.elapsed,
            }
            &&& samples.elapsed@ >= ctx.startup_grace@ ==> after.failures == 0
            &&& (samples.elapsed@ >= ctx.startup_grace@ && ctx.max_failures > 0) ==> acts.len() == 2
                && (acts[1] matches Action::ArmActionTimer(d) && d@ == 1_000_000)
        }),
{
}

/// A crash loop is given up with the failed start that makes the streak as long as allowed,
/// and with none before: it is reported with that streak and the restarts completed, and
/// the supervisor fails.
pub proof fn crash_loop_is_given_up_at_the_maximum(
    state: State,
    ctx: Ctx,
    event: Event,
    samples: Samples,
)
    requires
        (state == State::Running && event == Event::ChildExited && samples.elapsed@
            < ctx.startup_grace@) || (state == (State::Respawning { shutdown_pending: false })
            && event == Event::SpawnResult(SpawnOutcome::Failed)),
        ctx.failures < u32::MAX,
    ensures
        ({
            let acts = stepped(state, ctx, event, samples).2;
            let n = acts.len() as int;
            if ctx.failures + 1 >= ctx.max_failures {
                &&& n >= 2
                &&& acts[n - 1] == Action::Exit(1)
                &&& acts[n - 2] == Action::CrashLoopGiveUp {
                    failures: (ctx.failures + 1) as u32,
                    restart_count: ctx.restart_total,
                }
            } else {
                forall|i: int|
                    0 <= i < n ==> !(#[trigger] acts[i] is Exit) && !(acts[i] is CrashLoopGiveUp)
            }
        }),
{
}

/// An alert tells the truth about the escalation, whether or not a shutdown is under way:
/// the target that is gone is reported for the reason of its takedown, as escalated exactly
/// if it was sent SIGKILL. No other step reports a drain.
pub proof fn escalation_is_told_truly(state: State, ctx: Ctx, event: Event, samples: Samples)
    ensures
        ({
            let acts = stepped(state, ctx, event, samples).2;
            &&& forall|i: int|
                0 <= i < acts.len() && #[trigger] acts[i] is SendDrainAlert ==> {
                    &&& event == Event::ChildExited
                    &&& i == 0
                    &&& state is Killing ==> acts[i]->SendDrainAlert_escalated
                    &&& state is Draining ==> !acts[i]->SendDrainAlert_escalated
                    &&& state is Killing || state is Draining
                }
            &&& event == Event::ChildExited ==> match state {
                State::Killing { reason, .. } => acts[0] == Action::SendDrainAlert {
                    reason,
                    escalated: true,
                },
                State::Draining { reason, .. } => acts[0] == Action::SendDrainAlert {
                    reason,
                    escalated: false,
                },
                _ => true,
            }
        }),
{
}

/// The last signal among the actions, or the one before them.
pub open spec fn last_signal(before: Option<Action>, acts: Seq<Action>) -> Option<Action>
    decreases acts.len(),
{
    if acts.len() == 0 {
        before
    } else if acts.last() == Action::SignalGraceful || acts.last() == Action::SignalKill {
        Some(acts.last())
    } else {
        last_signal(before, acts.drop_last())
    }
}

/// Whether the last signal is the one that the state stands for.
pub open spec fn signal_matches(state: State, last: Option<Action>) -> bool {
    match state {
        State::Draining { .. } => last == Some(Action::SignalGraceful),
        State::Killing { .. } => last == Some(Action::SignalKill),
        _ => true,
    }
}

proof fn lemma_signal_concat(before: Option<Action>, a: Seq<Action>, b: Seq<Action>)
    ensures
        last_signal(before, a + b) == last_signal(last_signal(before, a), b),
    decreases b.len(),
{
    if b.len() == 0 {
        assert(a + b == a);
    } else {
        assert((a + b).drop_last() == a + b.drop_last());
        assert((a + b).last() == b.last());
        lemma_signal_concat(before, a, b.drop_last());
    }
}

proof fn lemma_signal_of_three(before: Option<Action>, acts: Seq<Action>)
    ensures
        acts.len() == 0 ==> last_signal(before, acts) == before,
        acts.len() == 3 && !is_signal(acts[2]) && is_signal(acts[1]) ==> last_signal(before, acts)
            == Some(acts[1]),
{
    reveal_with_fuel(last_signal, 3);
}

proof fn lemma_step_keeps_signal(
    state: State,
    ctx: Ctx,
    event: Event,
    samples: Samples,
    last: Option<Action>,
)
    requires
        signal_matches(state, last),
    ensures
        ({
            let (next, _, acts) = stepped(state, ctx, event, samples);
            exits(acts) || signal_matches(next, last_signal(last, acts))
        }),
{
    lemma_signal_of_three(last, stepped(state, ctx, event, samples).2);
}

proof fn lemma_step_reports_truly(
    state: State,
    ctx: Ctx,
    event: Event,
    samples: Samples,
    last: Option<Action>,
)
    requires
        signal_matches(state, last),
    ensures
        ({
            let acts = stepped(state, ctx, event, samples).2;
            forall|i: int|
                0 <= i < acts.len() && #[trigger] acts[i] is SendDrainAlert ==> (
                acts[i]->SendDrainAlert_escalated <==> last_signal(last, acts.take(i)) == Some(
                    Action::SignalKill,
                ))
        }),
{
    let acts = stepped(state, ctx, event, samples).2;
    escalation_is_told_truly(state, ctx, event, samples);
    assert(acts.len() > 0 ==> acts.take(0) == Seq::<Action>::empty());
}

/// Over any run, every drain is reported truly: as escalated exactly if the last signal
/// that the target got is SIGKILL.
pub proof fn killed_targets_are_reported_as_killed(
    state: State,
    ctx: Ctx,
    steps: Seq<Happening>,
    last: Option<Action>,
)
    requires
        signal_matches(state, last),
    ensures
        ({
            let acts = run(state, ctx, steps).2;
            forall|i: int|
                0 <= i < acts.len() && #[trigger] acts[i] is SendDrainAlert ==> (
                acts[i]->SendDrainAlert_escalated <==> last_signal(last, acts.take(i)) == Some(
                    Action::SignalKill,
                ))
        }),
    decreases steps.len(),
{
    if steps.len() > 0 {
        let (s, c, acts) = stepped(state, ctx, steps[0].0, steps[0].1);
        lemma_step_reports_truly(state, ctx, steps[0].0, steps[0].1, last);
        if !exits(acts) {
            let mid = last_signal(last, acts);
            lemma_step_keeps_signal(state, ctx, steps[0].0, steps[0].1, last);
            killed_targets_are_reported_as_killed(s, c, steps.drop_first(), mid);
            let rest = run(s, c, steps.drop_first()).2;
            let all = acts + rest;
            assert forall|i: int| 0 <= i < all.len() && #[trigger] all[i] is SendDrainAlert implies (
            all[i]->SendDrainAlert_escalated <==> last_signal(last, all.take(i)) == Some(
                Action::SignalKill,
            )) by {
                if i < acts.len() {
                    assert(all[i] == acts[i]);
                    assert(all.take(i) == acts.take(i));
                } else {
                    let k = i - acts.len();
                    assert(all[i] == rest[k]);
                    assert(all.take(i) == acts + rest.take(k));
                    lemma_signal_concat(last, acts, rest.take(k));
                }
            }
        }
    }
}

/// A target that had to be killed raises a critical alert with the snapshot that was taken
/// of it, whatever the reason and whether or not a shutdown is under way.
pub proof fn killed_target_raises_a_critical_alert(
    reason: RestartReason,
    shutdown: bool,
    ctx: Ctx,
    samples: Samples,
    snapshot: Snapshot,
    label: Seq<char>,
    pid: i32,
)
    ensures
        ({
            let state = State::Killing { reason, shutdown };
            let acts = stepped(state, ctx, Event::ChildExited, samples).2;
            commands_of(acts[0], ctx, Some(snapshot), label, pid) == seq![
                CommandView::Send { snapshot, severity: Severity::Critical },
            ]
        }),
{
}

/// A target that outlives SIGKILL ends the supervisor with a failure, and with a critical
/// alert that carries the snapshot.
pub proof fn unkillable_target_fails_the_supervisor(
    reason: RestartReason,
    shutdown: bool,
    ctx: Ctx,
    samples: Samples,
    snapshot: Snapshot,
    label: Seq<char>,
    pid: i32,
)
    ensures
        ({
            let state = State::Killing { reason, shutdown };
            let acts = stepped(state, ctx, Event::TimerExpired, samples).2;
            &&& acts.len() == 2
            &&& acts[0] == Action::Unkillable { reason }
            &&& acts[1] == Action::Exit(1)
            &&& commands_of(acts[0], ctx, Some(snapshot), label, pid)[0] == (CommandView::Send {
                snapshot,
                severity: Severity::Critical,
            })
        }),
{
}

/// A drain that outlasts its deadline is escalated for the same reason and to the same end;
/// a second stop escalates it at once, and makes a stop of it. A target that was killed
/// stays the same case until it is gone, but for a stop, which is remembered.
pub proof fn escalation_keeps_the_case(
    reason: RestartReason,
    shutdown: bool,
    ctx: Ctx,
    samples: Samples,
)
    ensures
        ({
            let draining = State::Draining { reason, shutdown };
            let killing = State::Killing { reason, shutdown };
            let late = stepped(draining, ctx, Event::TimerExpired, samples);
            let again = stepped(draining, ctx, Event::OperatorStop, samples);
            let stopped = stepped(killing, ctx, Event::OperatorStop, samples);
            &&& late.0 == killing && late.2.len() == 3 && late.2[1] == Action::SignalKill
            &&& again.0 == (State::Killing { reason, shutdown: true }) && again.2.len() == 3
                && again.2[1] == Action::SignalKill
            &&& stopped.0 == (State::Killing { reason, shutdown: true }) && stopped.2.len() == 0
        }),
{
}

/// A target that was taken down for a restart is replaced, with a clean record; one that was
/// taken down for a stop is not, and the supervisor succeeds.
pub proof fn takedown_ends_as_it_was_meant(state: State, ctx: Ctx, samples: Samples)
    requires
        state is Draining || state is Killing,
    ensures
        ({
            let shutdown = match state {
                State::Draining { shutdown, .. } => shutdown,
                State::Killing { shutdown, .. } => shutdown,
                _ => false,
            };
            let (next, after, acts) = stepped(state, ctx, Event::ChildExited, samples);
            if shutdown {
                acts.len() == 2 && acts[1] == Action::Exit(0)
            } else {
                &&& next == State::Respawning { shutdown_pending: false }
                &&& after.failures == 0
                &&& acts.len() == 3
                &&& acts[1] == Action::DisarmActionTimer
                &&& acts[2] == Action::Spawn
            }
        }),
{
}

/// A stop drains a running target as a stop, ends a backoff with success, and is remembered
/// while a spawn is under way, whose target is then drained or not waited for.
pub proof fn stop_is_carried_out(ctx: Ctx, samples: Samples, pending: bool)
    ensures
        ({
            let running = stepped(State::Running, ctx, Event::OperatorStop, samples);
            let backoff = stepped(State::Backoff, ctx, Event::OperatorStop, samples);
            let spawning = stepped(
                State::Respawning { shutdown_pending: pending },
                ctx,
                Event::OperatorStop,
                samples,
            );
            let due = State::Respawning { shutdown_pending: true };
            let up = stepped(due, ctx, Event::SpawnResult(SpawnOutcome::Started), samples);
            let down = stepped(due, ctx, Event::SpawnResult(SpawnOutcome::Failed), samples);
            &&& running.0 == (State::Draining { reason: RestartReason::Periodic, shutdown: true })
                && running.2.len() == 3 && running.2[1] == Action::SignalGraceful
            &&& backoff.2.len() == 1 && backoff.2[0] == Action::Exit(0)
            &&& spawning.0 == due && spawning.2.len() == 0
            &&& up.0 == (State::Draining { reason: RestartReason::Periodic, shutdown: true })
                && up.2.len() == 3 && up.2[1] == Action::SignalGraceful
            &&& down.2.len() == 1 && down.2[0] == Action::Exit(0)
        }),
{
}

/// A respawn that is due spawns, once; a target that came up is running, and counted as one
/// more restart.
pub proof fn respawn_is_carried_out(ctx: Ctx, samples: Samples)
    ensures
        ({
            let due = stepped(State::Backoff, ctx, Event::TimerExpired, samples);
            let up = stepped(
                State::Respawning { shutdown_pending: false },
                ctx,
                Event::SpawnResult(SpawnOutcome::Started),
                samples,
            );
            &&& due.0 == (State::Respawning { shutdown_pending: false }) && due.2.len() == 1
                && due.2[0] == Action::Spawn
            &&& due.1 == ctx
            &&& up.0 == State::Running && up.2.len() == 0
            &&& up.1.failures == ctx.failures
            &&& ctx.restart_total < u64::MAX ==> up.1.restart_total == ctx.restart_total + 1
        }),
{
}

/// Counting is by one: the restart total by a spawn that succeeds and nothing else, the
/// streak by a failed start and nothing else. A streak ends with a sign of health only: a
/// target that outlived the startup grace, or one that was taken down for a restart.
pub proof fn counts_go_up_by_one(state: State, ctx: Ctx, event: Event, samples: Samples)
    requires
        ctx.restart_total < u64::MAX,
        ctx.failures < u32::MAX,
    ensures
        ({
            let after = stepped(state, ctx, event, samples).1;
            let started = state is Respawning && event == Event::SpawnResult(SpawnOutcome::Started);
            let failed = (state == State::Running && event == Event::ChildExited && samples.elapsed@
                < ctx.startup_grace@) || (state == (State::Respawning { shutdown_pending: false })
                && event == Event::SpawnResult(SpawnOutcome::Failed));
            let outlived = state == State::Running && (event == Event::ChildExited || event
                == Event::Tick) && samples.elapsed@ >= ctx.startup_grace@;
            let replaced = event == Event::ChildExited && match state {
                State::Draining { shutdown, .. } => !shutdown,
                State::Killing { shutdown, .. } => !shutdown,
                _ => false,
            };
            &&& after.restart_total == ctx.restart_total + (if started {
                1int
            } else {
                0
            })
            &&& failed ==> after.failures == ctx.failures + 1
            &&& outlived || replaced ==> after.failures == 0
            &&& !failed && !outlived && !replaced ==> after.failures == ctx.failures
        }),
{
}

/// A snapshot reports the restarts completed, and one more if the takedown is for a restart.
pub proof fn snapshot_counts_the_coming_restart(
    state: State,
    ctx: Ctx,
    event: Event,
    samples: Samples,
    i: int,
)
    requires
        0 <= i < stepped(state, ctx, event, samples).2.len(),
        stepped(state, ctx, event, samples).2[i] is CaptureSnapshot,
        stepped(state, ctx, event, samples).1.restart_total < u64::MAX,
    ensures
        ({
            let (next, after, acts) = stepped(state, ctx, event, samples);
            let shutdown = match next {
                State::Draining { shutdown, .. } => shutdown,
                State::Killing { shutdown, .. } => shutdown,
                _ => false,
            };
            acts[i]->CaptureSnapshot_restart_count == after.restart_total + (if shutdown {
                0int
            } else {
                1
            })
        }),
{
}

/// What does not concern a state changes nothing: a timer or the result of a spawn while the
/// target is running, ticks and pressure while it is not, and an exit while there is none.
pub proof fn other_events_change_nothing(state: State, ctx: Ctx, event: Event, samples: Samples)
    requires
        match state {
            State::Running => event is TimerExpired || event is SpawnResult,
            State::Draining { .. } => event is Tick || event is PsiEdge || event is SpawnResult,
            State::Killing { .. } => event is Tick || event is PsiEdge || event is SpawnResult,
            State::Backoff => event is Tick || event is PsiEdge || event is SpawnResult || event
                is ChildExited,
            State::Respawning { .. } => event is Tick || event is PsiEdge || event is TimerExpired
                || event is ChildExited,
        },
    ensures
        stepped(state, ctx, event, samples).0 == state,
        stepped(state, ctx, event, samples).1 == ctx,
        stepped(state, ctx, event, samples).2.len() == 0,
{
}

/// Counts that have reached their largest value stay there.
pub proof fn counts_never_wrap(state: State, ctx: Ctx, event: Event, samples: Samples)
    ensures
        ({
            let after = stepped(state, ctx, event, samples).1;
            &&& ctx.restart_total == u64::MAX ==> after.restart_total == u64::MAX
            &&& ctx.failures == u32::MAX ==> after.failures == u32::MAX || after.failures == 0
            &&& after.restart_total >= ctx.restart_total
        }),
{
}

/// A failed start is dealt with in so many actions and no more: a crash is logged, and then
/// the wait begins or the loop is given up.
pub proof fn failed_start_takes_no_further_action(
    state: State,
    ctx: Ctx,
    event: Event,
    samples: Samples,
)
    requires
        (state == State::Running && event == Event::ChildExited) || (state == (State::Respawning {
            shutdown_pending: false,
        }) && event == Event::SpawnResult(SpawnOutcome::Failed)),
    ensures
        ({
            let acts = stepped(state, ctx, event, samples).2;
            let logged = if state == State::Running {
                1int
            } else {
                0
            };
            &&& acts.last() is ArmActionTimer ==> acts.len() == logged + 1
            &&& acts.last() is Exit ==> acts.len() == logged + 2
            &&& acts.last() is ArmActionTimer || acts.last() is Exit
        }),
{
}

} // verus!
