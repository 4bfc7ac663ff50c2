//! What holds of the event loop's decisions: how a configuration governs the machine, how
//! actions become commands, and what is made of the answers of the operating system.

use crate::alert::{reason_text, Severity};
use crate::binary64::Binary64;
use crate::cgroup::{
    answered, file_in, integer_read, is_ratio, limit_file, limit_read, usage_file, CgroupPaths,
    CgroupVersion, MemorySample, ReadError,
};
use crate::config::{Config, GracefulSignal, PsiTrigger};
use crate::decision::{HeartbeatInput, RestartReason};
use crate::diagnostics::Snapshot;
use crate::fsm::{stepped, Action, Ctx, Event, GracefulKind, Samples, State};
use crate::heartbeat::HeartbeatAge;
use crate::log::LogLevel;
use crate::path::UnixPath;
use crate::psi::{is_threshold, pressure_of, reached, PsiHandle};
use crate::supervisor::{
    command_line, commands_of, crash_body, crash_loop_body, heartbeat_sampled, initial_ctx, input_of, is_limit,
    is_mem_sample, is_sample_ratio, is_snapshot_age, limit_answers, limit_step_of,
    pressure_sampled, reap_answers, reap_result, reap_step_of, resolved_body, restart_body,
    retries_of, retryable, shown_value, spawn_failed_body, spawned_body, stash_left, timer_for,
    CommandView, LimitStep, ReapOutcome, ReapStepView, Waited, MEM_LIMIT_PAUSE_MILLIS,
    REAP_EINTR_RETRIES, TOK_ACTION, TOK_PSI, TOK_SIGNAL, TOK_TICK,
};
use crate::text::{decimal, lines_of, lossy_text, signed_decimal, text_debug, truth, white};
use crate::time::Duration;
use vstd::prelude::*;

verus! {

/// A supervisor does what it was configured for. From the start on, a drain waits for the
/// configured grace period after the configured signal; a first early crash waits for the
/// configured backoff, and is given up at once only if a single failure is too many.
pub proof fn supervisor_follows_its_configuration(config: Config, samples: Samples)
    requires
        config.backoff@ <= 18_446_744_073_709_551_615_999_999_999,
    ensures
        ({
            let ctx = initial_ctx(config);
            let stop = stepped(State::Running, ctx, Event::OperatorStop, samples).2;
            let crash = stepped(State::Running, ctx, Event::ChildExited, samples).2;
            &&& stop[1] == Action::SignalGraceful
            &&& stop[2] == Action::ArmActionTimer(config.grace_period)
            &&& samples.elapsed@ < config.startup_grace@ ==> {
                &&& config.max_failures > 1 ==> crash.len() == 2 && (
                crash[1] matches Action::ArmActionTimer(d) && d@ == config.backoff@)
                &&& config.max_failures <= 1 ==> crash.last() == Action::Exit(1)
            }
            &&& config.graceful_signal == GracefulSignal::Term <==> ctx.graceful
                == GracefulKind::Term
            &&& config.graceful_signal == GracefulSignal::Int <==> ctx.graceful == GracefulKind::Int
        }),
{
    assert(config.backoff@ * 1 == config.backoff@);
}

/// A running target is watched as configured: it is drained by the first tick at or after
/// the configured interval, and during the configured startup grace by nothing else.
pub proof fn supervisor_watches_as_configured(config: Config, samples: Samples)
    ensures
        ({
            let next = stepped(State::Running, initial_ctx(config), Event::Tick, samples).0;
            &&& (config.restart_interval matches Some(d) && samples.elapsed@ >= d@) ==> next
                is Draining
            &&& (samples.elapsed@ < config.startup_grace@ && (
            config.restart_interval matches Some(d) ==> samples.elapsed@ < d@)) ==> next
                == State::Running
            &&& (samples.heartbeat matches HeartbeatInput::Age(a) && a@ > config.heartbeat_max_age@
                && samples.elapsed@ >= config.startup_grace@) ==> next == (State::Draining {
                reason: RestartReason::HeartbeatStale,
                shutdown: false,
            })
            &&& (samples.mem_ratio matches Some(ratio) && config.mem_threshold matches Some(t)
                && !ratio.nan() && !t.nan() && ratio.scaled() >= t.scaled() && samples.elapsed@
                >= config.startup_grace@) ==> next is Draining
        }),
{
}

/// A timer runs for its span to the nanosecond. It is never set to zero, which would disarm
/// it, and a span beyond what it can count is cut to the most that it can.
pub proof fn timers_run_for_their_span(d: Duration)
    ensures
        ({
            let t = timer_for(d);
            &&& 0 < d@ < 9_223_372_036_854_775_808_000_000_000 ==> t.tv_sec * 1_000_000_000
                + t.tv_nsec == d@ && 0 <= t.tv_nsec < 1_000_000_000
            &&& d@ == 0 ==> t.tv_sec == 0 && t.tv_nsec == 1_000_000
            &&& d@ >= 9_223_372_036_854_775_808_000_000_000 ==> t.tv_sec == i64::MAX && t.tv_nsec
                == 0
            &&& t.tv_sec > 0 || t.tv_nsec > 0
        }),
{
}

/// Longer spans never make a timer fire earlier, as far as it can count.
pub proof fn timers_keep_their_order(a: Duration, b: Duration)
    requires
        1_000_000 <= a@ <= b@ < 9_223_372_036_854_775_808_000_000_000,
    ensures
        timer_for(a).tv_sec < timer_for(b).tv_sec || (timer_for(a).tv_sec == timer_for(b).tv_sec
            && timer_for(a).tv_nsec <= timer_for(b).tv_nsec),
{
    timers_run_for_their_span(a);
    timers_run_for_their_span(b);
}

/// The actions on the target and the timer are carried out as they are: a spawn spawns, a
/// graceful signal sends the configured one, a kill kills, a deadline sets the timer for its
/// span, and an exit has its code.
pub proof fn actions_are_carried_out(
    ctx: Ctx,
    stash: Option<Snapshot>,
    label: Seq<char>,
    pid: i32,
    reason: RestartReason,
    n: u64,
    code: i32,
    d: Duration,
)
    ensures
        commands_of(Action::Spawn, ctx, stash, label, pid) == seq![CommandView::Spawn],
        commands_of(Action::SignalGraceful, ctx, stash, label, pid) == seq![
            CommandView::Signal(ctx.graceful),
        ],
        commands_of(Action::SignalKill, ctx, stash, label, pid) == seq![CommandView::Kill],
        commands_of(Action::DisarmActionTimer, ctx, stash, label, pid) == seq![
            CommandView::DisarmTimer,
        ],
        commands_of(Action::Exit(code), ctx, stash, label, pid) == seq![CommandView::Exit(code)],
        commands_of(
            Action::CaptureSnapshot { reason, restart_count: n },
            ctx,
            stash,
            label,
            pid,
        ) == seq![CommandView::Capture { reason, restart_count: n }],
        0 < d@ < 9_223_372_036_854_775_808_000_000_000 ==> {
            let v = commands_of(Action::ArmActionTimer(d), ctx, stash, label, pid);
            &&& v.len() == 1
            &&& v[0] matches CommandView::ArmTimer(t) && t.tv_sec * 1_000_000_000 + t.tv_nsec == d@
        },
{
    timers_run_for_their_span(d);
}

/// Only anomalies raise an alert when a drained target is gone: one that had to be killed is
/// critical, one that ran out of memory or under pressure is a warning, and every other one
/// is only logged. The alert carries the snapshot that was kept, and uses it up.
pub proof fn only_anomalies_are_alerted(
    reason: RestartReason,
    escalated: bool,
    ctx: Ctx,
    snapshot: Snapshot,
    label: Seq<char>,
    pid: i32,
)
    ensures
        ({
            let action = Action::SendDrainAlert { reason, escalated };
            let v = commands_of(action, ctx, Some(snapshot), label, pid);
            let left = stash_left(action, Some(snapshot));
            &&& escalated ==> v == seq![
                CommandView::Send { snapshot, severity: Severity::Critical },
            ] && left is None
            &&& (!escalated && (reason == RestartReason::Memory || reason == RestartReason::Psi))
                ==> v == seq![CommandView::Send { snapshot, severity: Severity::Warning }] && left
                is None
            &&& (!escalated && (reason == RestartReason::Periodic || reason
                == RestartReason::HeartbeatStale || reason == RestartReason::Crash || reason
                == RestartReason::Shutdown)) ==> v.len() == 1 && (
            v[0] matches CommandView::Log { level, .. } && level == LogLevel::Warn) && left == Some(
                snapshot,
            )
        }),
{
}

/// An alert that is due but has no snapshot is not passed over in silence: it is logged as
/// an error. A crash loop and a target that cannot be killed are alerted as critical and
/// logged as errors.
pub proof fn failures_are_never_silent(
    reason: RestartReason,
    failures: u32,
    count: u64,
    ctx: Ctx,
    stash: Option<Snapshot>,
    label: Seq<char>,
    pid: i32,
)
    ensures
        ({
            let lost = commands_of(
                Action::SendDrainAlert { reason, escalated: true },
                ctx,
                None,
                label,
                pid,
            );
            let looped = commands_of(
                Action::CrashLoopGiveUp { failures, restart_count: count },
                ctx,
                stash,
                label,
                pid,
            );
            let unkillable = commands_of(Action::Unkillable { reason }, ctx, stash, label, pid);
            &&& lost.len() == 1 && (lost[0] matches CommandView::Log { level, .. } && level
                == LogLevel::Error)
            &&& looped.len() == 2 && looped[0] == (CommandView::AlertCrashLoop {
                reason: RestartReason::Crash,
                restart_count: count,
                severity: Severity::Critical,
            }) && (looped[1] matches CommandView::Log { level, .. } && level == LogLevel::Error)
            &&& unkillable.last() matches CommandView::Log { level, .. } && level
                == LogLevel::Error
            &&& stash matches Some(snapshot) ==> unkillable.len() == 2 && unkillable[0] == (
            CommandView::Send { snapshot, severity: Severity::Critical })
        }),
{
}

/// The kept snapshot is used up by an alert and by nothing else.
pub proof fn snapshot_is_kept_until_it_is_sent(
    action: Action,
    ctx: Ctx,
    snapshot: Snapshot,
    label: Seq<char>,
    pid: i32,
)
    ensures
        ({
            let v = commands_of(action, ctx, Some(snapshot), label, pid);
            let sent = exists|i: int| 0 <= i < v.len() && #[trigger] v[i] is Send;
            stash_left(action, Some(snapshot)) == if sent {
                None
            } else {
                Some(snapshot)
            }
        }),
{
    let v = commands_of(action, ctx, Some(snapshot), label, pid);
    if action is Unkillable {
        assert(v[0] is Send);
    }
    if let Action::SendDrainAlert { .. } = action {
        if !(v[0] is Send) {
            assert(v.len() == 1);
        }
    }
}

/// A restart that is only logged is logged as what it was: its line tells the reason, and
/// whether it took SIGKILL. A crash is logged with whether the target had been healthy.
pub proof fn log_lines_tell_the_truth(
    label: Seq<char>,
    pid: i32,
    reason: RestartReason,
    escalated: bool,
    restarts: u64,
    healthy: bool,
    lived: Duration,
) -> (r: (Seq<char>, Seq<char>, Seq<char>, Seq<char>))
    ensures
        restart_body(label, pid, reason, escalated, restarts) == r.0 + (" reason="@ + reason_text(
            reason,
        ) + " escalated="@ + truth(escalated)) + r.1,
        crash_body(label, pid, healthy, lived) == r.2 + (" healthy="@ + truth(healthy)) + r.3,
        r.0 == "event=restart "@ + label + " pid="@ + signed_decimal(pid as int),
        r.2 == "event=crash "@ + label + " pid="@ + signed_decimal(pid as int),
        r.1 == " restarts="@ + decimal(restarts as nat),
        r.3 == " lived="@ + lived.shown(),
{
    let before = "event=restart "@ + label + " pid="@ + signed_decimal(pid as int);
    let crash = "event=crash "@ + label + " pid="@ + signed_decimal(pid as int);
    let count = " restarts="@ + decimal(restarts as nat);
    let span = " lived="@ + lived.shown();
    assert(restart_body(label, pid, reason, escalated, restarts) == before + (" reason="@
        + reason_text(reason) + " escalated="@ + truth(escalated)) + count);
    assert(crash_body(label, pid, healthy, lived) == crash + (" healthy="@ + truth(healthy))
        + span);
    (before, count, crash, span)
}

/// A wait that ended says that the target has exited, whatever its status; one that did not
/// says that it is running. An error or an interruption proves neither, and is logged.
pub proof fn only_a_status_confirms_an_exit(answer: Waited)
    ensures
        answer is Exited <==> reap_result(answer).0 == ReapOutcome::Exited,
        answer is Running <==> reap_result(answer).0 == ReapOutcome::Running,
        (answer is Exited || answer is Running) <==> reap_result(answer).1 is None,
{
}

/// Only an interruption is tried again, and only while attempts are left; otherwise the
/// answer decides.
pub proof fn only_interruptions_are_tried_again(answer: Waited, left: nat)
    ensures
        reap_step_of(answer, left) is Again <==> answer is Interrupted && left > 0,
        reap_step_of(answer, left) matches ReapStepView::Done(outcome, _) ==> {
            &&& outcome == ReapOutcome::Exited <==> answer is Exited
            &&& outcome == ReapOutcome::Running <==> answer is Running
        },
{
}

/// A limit that was found is taken at once. A failure is tried again while attempts are
/// left; no limit only where one is expected. What was read last is the result.
pub proof fn only_missing_limits_are_tried_again<X>(
    answer: Result<Option<u64>, X>,
    left: nat,
    retry_on_none: bool,
)
    ensures
        ({
            let next = limit_step_of(answer, left, retry_on_none);
            &&& answer matches Ok(Some(_)) ==> next == LimitStep::Done(answer)
            &&& answer is Err ==> (next is PauseAndRead <==> left > 0)
            &&& answer matches Ok(None) ==> (next is PauseAndRead <==> left > 0 && retry_on_none)
            &&& !(next is PauseAndRead) ==> next == LimitStep::Done(answer)
            &&& left == 0 ==> next == LimitStep::Done(answer)
        }),
        retryable(answer, retry_on_none) ==> !(answer matches Ok(Some(_))),
{
}

/// A limit that is known is used as it is, and none is read on the hot path.
pub proof fn known_limit_is_used<X, R: Fn(&UnixPath) -> Result<String, X>>(
    read: R,
    cg: CgroupPaths,
    cached: Option<u64>,
    recover: bool,
    r: Option<MemorySample>,
)
    requires
        is_mem_sample(read, cg, cached, recover, r),
    ensures
        r matches Some(s) ==> (cached is Some || !recover ==> s.max == cached),
        forall|max: Option<u64>|
            (cached is Some || !recover) && #[trigger] is_limit(read, cg, cached, recover, max)
                ==> max == cached,
{
}

/// The ratio is there exactly if usage and limit are, and it is their quotient.
pub proof fn ratio_needs_usage_and_limit(
    sample: Option<MemorySample>,
    ratio: Option<Binary64>,
)
    requires
        is_sample_ratio(sample, ratio),
    ensures
        ratio is Some <==> (sample matches Some(s) && s.max is Some),
        ratio matches Some(x) ==> is_ratio(sample->0.current, sample->0.max->0, x),
{
}

/// Usage and limit are read from the files of the hierarchy's version.
pub proof fn memory_files_go_by_version(version: CgroupVersion)
    ensures
        version == CgroupVersion::V2 ==> usage_file(version) == "memory.current"@ && limit_file(
            version,
        ) == "memory.max"@,
        version == CgroupVersion::V1 ==> usage_file(version) == "memory.usage_in_bytes"@
            && limit_file(version) == "memory.limit_in_bytes"@,
{
}

/// The decision sees the heartbeat as it was found: its age to the nanosecond, or that there
/// is none, or that it could not be read.
pub proof fn heartbeat_is_seen_as_found(age: HeartbeatAge)
    ensures
        age matches HeartbeatAge::Age(d) ==> input_of(age) == HeartbeatInput::Age(d),
        age is Missing <==> input_of(age) == HeartbeatInput::Missing,
        age is Unreadable <==> input_of(age) == HeartbeatInput::Unreadable,
        input_of(age) != HeartbeatInput::Disabled,
{
}

/// Without a heartbeat file the heartbeat is off. With one, an unreadable heartbeat is
/// logged when it becomes so and not again until it was readable in between.
pub proof fn unreadable_heartbeat_is_logged_once<A: Fn(&UnixPath) -> HeartbeatAge>(
    age: A,
    file: Option<UnixPath>,
    before: bool,
    after: bool,
    input: HeartbeatInput,
    log: Option<Seq<char>>,
)
    requires
        heartbeat_sampled(age, file, before, after, input, log),
    ensures
        file is None <==> input == HeartbeatInput::Disabled,
        file is Some ==> (after <==> input == HeartbeatInput::Unreadable),
        log is Some <==> file is Some && input == HeartbeatInput::Unreadable && !before,
        file is None ==> after == before,
{
}

/// Pressure is sampled only where it is polled for a trigger that is set.
pub proof fn pressure_is_sampled_only_when_polled<
    H,
    X,
    R: Fn(&UnixPath) -> Result<String, X>,
    N: Fn(&str) -> Option<Binary64>,
>(read: R, number: N, handle: PsiHandle<H>, trigger: Option<PsiTrigger>, triggered: bool)
    requires
        pressure_sampled(read, number, handle, trigger, triggered),
        triggered,
    ensures
        handle is Poll,
        trigger is Some,
{
}

/// A logged value stands as it is unless it is empty or holds white space, a quote or an
/// equals sign; then it is quoted.
pub proof fn values_are_quoted_when_needed(s: Seq<char>)
    ensures
        (s.len() > 0 && forall|i: int|
            0 <= i < s.len() ==> !white(#[trigger] s[i]) && s[i] != '"' && s[i] != '=')
            ==> shown_value(s) == s,
        s.len() == 0 ==> shown_value(s) == text_debug(s),
        forall|i: int|
            0 <= i < s.len() && (white(#[trigger] s[i]) || s[i] == '"' || s[i] == '=')
                ==> shown_value(s) == text_debug(s),
{
}

/// How patient the supervisor is with the operating system.
pub proof fn patience_is_bounded()
    ensures
        REAP_EINTR_RETRIES == 8,
        MEM_LIMIT_PAUSE_MILLIS == 50,
{
}

/// A snapshot tells the age of the heartbeat exactly if there is a file and its age is known.
pub proof fn snapshot_age_is_the_heartbeat_age<A: Fn(&UnixPath) -> HeartbeatAge>(
    age: A,
    file: Option<UnixPath>,
    r: Option<Duration>,
)
    requires
        is_snapshot_age(age, file, r),
    ensures
        file is None ==> r is None,
        r matches Some(d) ==> (file matches Some(p) && answered(
            age,
            p.bytes@,
            HeartbeatAge::Age(d),
        )),
        (file matches Some(p) && r is None) ==> answered(
            age,
            file->0.bytes@,
            HeartbeatAge::Missing,
        ) || answered(age, file->0.bytes@, HeartbeatAge::Unreadable),
{
}

/// Pressure that is polled is sampled from the polled file, against the threshold of the
/// trigger.
pub proof fn polled_pressure_is_what_the_file_says<
    H,
    X,
    R: Fn(&UnixPath) -> Result<String, X>,
    N: Fn(&str) -> Option<Binary64>,
>(read: R, number: N, path: UnixPath, trigger: PsiTrigger, triggered: bool)
    requires
        pressure_sampled::<H, X, R, N>(
            read,
            number,
            PsiHandle::Poll(path),
            Some(trigger),
            triggered,
        ),
    ensures
        exists|content: Result<String, X>, t: Binary64|
            {
                &&& #[trigger] answered(read, path.bytes@, content)
                &&& #[trigger] is_threshold(trigger, t)
                &&& triggered <==> (content matches Ok(text) && pressure_of(
                    number,
                    lines_of(text@),
                ) matches Some(x) && !x.some_avg10.nan() && !t.nan() && x.some_avg10.scaled()
                    >= t.scaled())
            },
{
    let (content, t) = choose|content: Result<String, X>, t: Binary64|
        {
            &&& #[trigger] answered(read, path.bytes@, content)
            &&& #[trigger] is_threshold(trigger, t)
            &&& triggered == reached(number, content, t)
        };
    assert(answered(read, path.bytes@, content));
    assert(is_threshold(trigger, t));
}

/// The descriptors of the loop are told apart.
pub proof fn tokens_are_distinct()
    ensures
        TOK_SIGNAL != TOK_TICK && TOK_SIGNAL != TOK_ACTION && TOK_SIGNAL != TOK_PSI,
        TOK_TICK != TOK_ACTION && TOK_TICK != TOK_PSI && TOK_ACTION != TOK_PSI,
{
}

/// Memory is sampled from what the files state: the usage as its file states it, and a limit
/// that is recovered as its file states that. Usage that cannot be read makes no sample.
pub proof fn memory_is_sampled_as_stated<X, R: Fn(&UnixPath) -> Result<String, X>>(
    read: R,
    cg: CgroupPaths,
    recover: bool,
    cached: Option<u64>,
    r: Option<MemorySample>,
)
    requires
        is_mem_sample(read, cg, cached, recover, r),
    ensures
        exists|usage: Result<String, X>|
            {
                &&& #[trigger] answered(
                    read,
                    file_in(cg.memory_dir.bytes@, usage_file(cg.version)),
                    usage,
                )
                &&& r is Some <==> integer_read(usage) is Ok
                &&& r matches Some(s) ==> integer_read(usage) == Ok::<u64, ReadError<X>>(s.current)
            },
        (cached is None && recover) ==> (r matches Some(s) ==> exists|limit: Result<String, X>|
            {
                &&& #[trigger] answered(
                    read,
                    file_in(cg.memory_dir.bytes@, limit_file(cg.version)),
                    limit,
                )
                &&& s.max matches Some(n) ==> limit_read(cg.version, limit) == Ok::<
                    Option<nat>,
                    ReadError<X>,
                >(Some(n as nat))
                &&& s.max is None ==> limit_read(cg.version, limit) is Err || limit_read(
                    cg.version,
                    limit,
                ) == Ok::<Option<nat>, ReadError<X>>(None)
            }),
{
    let usage = choose|usage: Result<String, X>|
        #[trigger] answered(read, file_in(cg.memory_dir.bytes@, usage_file(cg.version)), usage)
            && match integer_read(usage) {
            Err(_) => r is None,
            Ok(current) => r matches Some(s) && s.current == current && is_limit(
                read,
                cg,
                cached,
                recover,
                s.max,
            ),
        };
    assert(answered(read, file_in(cg.memory_dir.bytes@, usage_file(cg.version)), usage));
}

/// The heartbeat is sampled as it was found at the configured file.
pub proof fn heartbeat_is_sampled_as_found<A: Fn(&UnixPath) -> HeartbeatAge>(
    age: A,
    file: UnixPath,
    before: bool,
    after: bool,
    input: HeartbeatInput,
    log: Option<Seq<char>>,
)
    requires
        heartbeat_sampled(age, Some(file), before, after, input, log),
    ensures
        input matches HeartbeatInput::Age(d) ==> answered(age, file.bytes@, HeartbeatAge::Age(d)),
        input == HeartbeatInput::Missing ==> answered(age, file.bytes@, HeartbeatAge::Missing),
        input == HeartbeatInput::Unreadable ==> answered(
            age,
            file.bytes@,
            HeartbeatAge::Unreadable,
        ),
{
}

/// A wait is tried again until something else than an interruption comes, and no longer:
/// with nothing but interruptions all the attempts are used up, one more than the retries.
pub proof fn interruptions_use_up_the_attempts<F: FnMut(u32) -> Waited>(
    f: F,
    answers: Seq<Waited>,
    cap: u32,
)
    requires
        reap_answers(f, answers, cap),
    ensures
        answers.last() is Interrupted <==> (forall|i: int|
            0 <= i < answers.len() ==> #[trigger] answers[i] is Interrupted),
        answers.last() is Interrupted ==> answers.len() == cap + 1,
        !(answers[0] is Interrupted) ==> answers.len() == 1,
        answers.len() <= cap + 1,
        forall|i: int|
            0 <= i < answers.len() ==> call_ensures(f, ((cap - i) as u32,), #[trigger] answers[i]),
{
    if answers.last() is Interrupted {
        assert forall|i: int| 0 <= i < answers.len() implies #[trigger] answers[i]
            is Interrupted by {
            if i == answers.len() - 1 {
                assert(answers[i] == answers.last());
            }
        }
    } else {
        assert(!(answers[answers.len() - 1] is Interrupted));
    }
}

/// A limit is read until one is found, or nothing more is worth it, or the attempts are used
/// up; there is always one attempt, and one pause less than there are attempts.
pub proof fn reads_of_the_limit_are_bounded<
    X,
    F: FnMut(u32) -> Result<Option<u64>, X>,
    P: FnMut(u32),
>(f: F, pause: P, answers: Seq<Result<Option<u64>, X>>, attempts: u32, retry_on_none: bool)
    requires
        limit_answers(f, pause, answers, retries_of(attempts), retry_on_none),
    ensures
        attempts <= 1 ==> answers.len() == 1,
        attempts >= 1 ==> 1 <= answers.len() <= attempts,
        (answers.last() is Err && attempts >= 1) ==> answers.len() == attempts,
        (answers.last() == Ok::<Option<u64>, X>(None) && retry_on_none && attempts >= 1)
            ==> answers.len() == attempts,
        (answers[0] matches Ok(Some(_))) ==> answers.len() == 1,
        (answers[0] matches Ok(None) && !retry_on_none) ==> answers.len() == 1,
        forall|i: int|
            0 <= i < answers.len() - 1 ==> call_ensures(
                pause,
                ((retries_of(attempts) - i) as u32,),
                (),
            ) && !(#[trigger] answers[i] matches Ok(Some(_))),
{
}

/// A log line that is about a target names it by its label and its process.
pub proof fn log_lines_name_the_target(
    label: Seq<char>,
    pid: i32,
    failures: u32,
    restarts: u64,
    memory: Seq<u8>,
    cpu: Seq<u8>,
    initial: bool,
    error: Seq<char>,
)
    ensures
        spawned_body(label, pid) == "event=spawned "@ + label + " pid="@ + signed_decimal(
            pid as int,
        ),
        crash_loop_body(label, pid, failures, restarts) == "event=crash-loop "@ + label + " pid="@
            + signed_decimal(pid as int) + " failures="@ + decimal(failures as nat) + " restarts="@
            + decimal(restarts as nat) + " action=giving-up"@,
        resolved_body(CgroupVersion::V1, memory, cpu) == "event=cgroup-resolved version="@ + "V1"@
            + " memory_dir="@ + shown_value(lossy_text(memory)) + " cpu_dir="@ + shown_value(
            lossy_text(cpu),
        ),
        resolved_body(CgroupVersion::V2, memory, cpu) == "event=cgroup-resolved version="@ + "V2"@
            + " memory_dir="@ + shown_value(lossy_text(memory)) + " cpu_dir="@ + shown_value(
            lossy_text(cpu),
        ),
        spawn_failed_body(true, error) == "event=spawn-failed phase="@ + "initial"@ + " error="@
            + error,
        spawn_failed_body(false, error) == "event=spawn-failed phase="@ + "respawn"@ + " error="@
            + error,
{
}

/// What is done about a target is logged with the target's label and process and with what
/// the machine says of it: how it crashed, how the loop went, or why it was restarted and
/// after how many restarts.
pub proof fn actions_are_logged_as_they_are(
    label: Seq<char>,
    pid: i32,
    ctx: Ctx,
    stash: Option<Snapshot>,
    healthy: bool,
    lived: Duration,
    failures: u32,
    count: u64,
    reason: RestartReason,
)
    requires
        reason != RestartReason::Memory && reason != RestartReason::Psi,
    ensures
        commands_of(Action::LogCrash { healthy, lived }, ctx, stash, label, pid) == seq![
            CommandView::Log {
                level: LogLevel::Warn,
                body: crash_body(label, pid, healthy, lived),
            },
        ],
        commands_of(
            Action::CrashLoopGiveUp { failures, restart_count: count },
            ctx,
            stash,
            label,
            pid,
        )[1] == (CommandView::Log {
            level: LogLevel::Error,
            body: crash_loop_body(label, pid, failures, count),
        }),
        commands_of(
            Action::SendDrainAlert { reason, escalated: false },
            ctx,
            stash,
            label,
            pid,
        ) == seq![
            CommandView::Log {
                level: LogLevel::Warn,
                body: restart_body(label, pid, reason, false, ctx.restart_total),
            },
        ],
{
}

/// A command line is its words in order, with a space between any two.
pub proof fn command_lines_are_their_words(target: Seq<String>, word: String)
    ensures
        command_line(seq![word]) == word@,
        target.len() > 0 ==> command_line(target.push(word)) == command_line(target) + " "@ + word@,
        command_line(Seq::empty()).len() == 0,
{
    assert(target.push(word).drop_last() == target);
}

} // verus!
