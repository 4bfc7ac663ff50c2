//! What the supervisor's event loop decides: which events a wakeup stands for, what is
//! sampled for them, and how the actions of the state machine are to be carried out.
//!
//! The loop itself belongs to the program: it waits, performs what it is told and
//! reports what happened.

use crate::alert::{classify, reason_name, reason_text, severity_of, Severity};
use crate::binary64::{consistent, Binary64};
use crate::cgroup::{
    answered, askable, file_in, integer_read, is_cpu_ceiling, is_ratio, limit_file, limit_read, read_cpu,
    read_memory_current, read_memory_max, usage_file, CgroupPaths, CgroupVersion, MemorySample,
};
use crate::config::{Config, GracefulSignal, PsiTrigger};
use crate::decision::{HeartbeatInput, RestartReason};
use crate::diagnostics::{is_thread_count, proc_open_fds, proc_threads, process_file, Snapshot};
use crate::fsm::{
    kill_confirm, kill_confirm_window, step, stepped, Action, Ctx, Event, GracefulKind, Samples,
    SpawnOutcome, State,
};
use crate::heartbeat::HeartbeatAge;
use crate::log::LogLevel;
use crate::path::UnixPath;
use crate::psi::{is_threshold, poll_triggered, reached, PsiHandle};
use crate::text::{
    as_nat, chars_of, debug_text, decimal, from_utf8_lossy, is_white, lossy_text, push_decimal,
    push_signed, push_text, push_truth, signed_decimal, text_debug, truth, white,
};
use crate::time::{Duration, NANOS_PER_MILLI, NANOS_PER_SEC};
use std::collections::VecDeque;
use vstd::prelude::*;

verus! {

/// The token of the signal descriptor.
pub const TOK_SIGNAL: u64 = 1;

/// The token of the tick timer.
pub const TOK_TICK: u64 = 2;

/// The token of the action timer.
pub const TOK_ACTION: u64 = 3;

/// The token of the pressure descriptor.
pub const TOK_PSI: u64 = 4;

/// The readiness flags that mean that a descriptor is broken: error (0x8) and hang-up
/// (0x10).
pub const FATAL_FLAGS: i32 = 0x18;

/// How often pressure is reopened after it was not there at startup. That covers tens of
/// seconds of slow setup and then gives up.
pub const PSI_REOPEN_ATTEMPTS: u32 = 30;

/// How often an interrupted wait is tried again.
pub const REAP_EINTR_RETRIES: u32 = 8;

/// How often the memory limit is read at startup when a threshold depends on it.
pub const MEM_LIMIT_ATTEMPTS: u32 = 3;

/// The pause between two reads of the memory limit at startup, in milliseconds.
pub const MEM_LIMIT_PAUSE_MILLIS: u64 = 50;

/// `nix::sys::time::TimeSpec::from_duration` takes over the whole seconds and the
/// nanoseconds of a span as they are, where the seconds fit.
#[verifier::external_body]
fn timespec_from_duration(secs: u64, nanos: u32) -> (r: (i64, i64))
    requires
        secs <= i64::MAX,
        nanos < 1_000_000_000,
    ensures
        r.0 == secs,
        r.1 == nanos,
{
    let ts = nix::sys::time::TimeSpec::from_duration(std::time::Duration::new(secs, nanos));
    (ts.tv_sec(), ts.tv_nsec())
}

/// `nix::sys::epoll::EpollFlags::intersects`: whether one of the bits of `mask` is set.
#[verifier::external_body]
fn flags_intersect(flags: i32, mask: i32) -> (r: bool)
    ensures
        r == (flags & mask != 0),
{
    let mask = nix::sys::epoll::EpollFlags::from_bits_retain(mask);
    nix::sys::epoll::EpollFlags::from_bits_retain(flags).intersects(mask)
}

/// `nix::sys::signal::Signal::try_from` finds the signal that a number stands for;
/// SIGTERM is 15 and SIGINT is 2. All other signals are alike here.
#[verifier::external_body]
fn signal_from_number(signum: i32) -> (r: Option<GracefulKind>)
    ensures
        r == if signum == 15 {
            Some(GracefulKind::Term)
        } else if signum == 2 {
            Some(GracefulKind::Int)
        } else {
            None
        },
{
    match nix::sys::signal::Signal::try_from(signum) {
        Ok(nix::sys::signal::Signal::SIGTERM) => Some(GracefulKind::Term),
        Ok(nix::sys::signal::Signal::SIGINT) => Some(GracefulKind::Int),
        _ => None,
    }
}

/// When a timer is to fire.
#[derive(Clone, Copy, PartialEq, Eq, Debug, Structural)]
pub struct TimerSpec {
    pub tv_sec: i64,
    pub tv_nsec: i64,
}

/// The setting of a timer for a span: the span itself, but never zero, which would
/// disarm the timer, and never more seconds than the timer can count.
pub open spec fn timer_for(d: Duration) -> TimerSpec {
    let secs = d@ / (NANOS_PER_SEC as nat);
    if d@ == 0 {
        TimerSpec { tv_sec: 0, tv_nsec: NANOS_PER_MILLI as i64 }
    } else if secs > i64::MAX {
        TimerSpec { tv_sec: i64::MAX, tv_nsec: 0 }
    } else {
        TimerSpec { tv_sec: secs as i64, tv_nsec: (d@ % (NANOS_PER_SEC as nat)) as i64 }
    }
}

/// The setting of a timer for a span.
pub fn timespec(d: Duration) -> (t: TimerSpec)
    ensures
        t == timer_for(d),
        0 < d@ < 9_223_372_036_854_775_808_000_000_000 ==> t.tv_sec * 1_000_000_000 + t.tv_nsec
            == d@,
        t.tv_sec >= 0,
        0 <= t.tv_nsec < NANOS_PER_SEC,
        t.tv_sec > 0 || t.tv_nsec > 0,
{
    let d = if d.is_zero() {
        Duration::from_millis(1)
    } else {
        d
    };
    let (tv_sec, tv_nsec): (i64, i64) = if d.as_secs() > i64::MAX as u64 {
        timespec_from_duration(i64::MAX as u64, 0)
    } else {
        timespec_from_duration(d.as_secs(), d.subsec_nanos())
    };
    TimerSpec { tv_sec, tv_nsec }
}

/// Whether the readiness of the pressure descriptor means that it is broken: an error or
/// hang-up is reported over and over and is no pressure.
pub fn psi_ready_is_fatal(flags: i32) -> (r: bool)
    ensures
        r == (flags & FATAL_FLAGS != 0),
        r == (flags & 0x18 != 0),
{
    flags_intersect(flags, FATAL_FLAGS)
}

/// The event that a signal stands for. SIGTERM and SIGINT ask for a stop; the death of
/// the target is found out by waiting for it, and other signals mean nothing.
pub fn signal_event(signum: i32) -> (r: Option<Event>)
    ensures
        r == if signum == 15 || signum == 2 {
            Some(Event::OperatorStop)
        } else {
            None
        },
{
    match signal_from_number(signum) {
        Some(_) => Some(Event::OperatorStop),
        None => None,
    }
}

/// What came of an attempt to see whether the target has exited.
#[derive(Debug)]
pub enum Waited {
    /// It has, with this wait status.
    Exited(i32),
    /// It has not.
    Running,
    /// The attempt was interrupted.
    Interrupted,
    /// The attempt failed, for this reason.
    Failed(String),
}

/// Whether the target has exited.
#[derive(Clone, Copy, PartialEq, Eq, Debug, Structural)]
pub enum ReapOutcome {
    Exited,
    Running,
    /// Neither is certain, and neither may be assumed: one would make up a crash, the
    /// other would overlook one.
    Inconclusive,
}

/// What the last attempt says about the target, and what is to be logged about it.
pub open spec fn reap_result(last: Waited) -> (ReapOutcome, Option<Seq<char>>) {
    match last {
        Waited::Exited(_) => (ReapOutcome::Exited, None),
        Waited::Running => (ReapOutcome::Running, None),
        Waited::Interrupted => (
            ReapOutcome::Inconclusive,
            Some("event=reap-inconclusive detail=\"interrupted past retry cap\""@),
        ),
        Waited::Failed(e) => (ReapOutcome::Inconclusive, Some("event=reap-error error="@ + e@)),
    }
}

/// Whether these are the answers of one reap: attempts are repeated as long as they are
/// interrupted, at most `cap` times. Each is told how many more are allowed.
pub open spec fn reap_answers<F: FnMut(u32) -> Waited>(
    f: F,
    answers: Seq<Waited>,
    cap: u32,
) -> bool {
    &&& 1 <= answers.len() <= cap + 1
    &&& forall|i: int|
        0 <= i < answers.len() ==> call_ensures(f, ((cap - i) as u32,), #[trigger] answers[i])
    &&& forall|i: int| 0 <= i < answers.len() - 1 ==> #[trigger] answers[i] is Interrupted
    &&& answers.len() <= cap ==> !(answers.last() is Interrupted)
}

/// A logged line as text.
pub open spec fn body_text(body: Option<String>) -> Option<Seq<char>> {
    match body {
        Some(s) => Some(s@),
        None => None,
    }
}

/// What to do after one attempt to see whether the target has exited.
#[derive(Debug)]
pub enum ReapStep {
    /// That is the outcome; the second part is to be logged as a warning.
    Done(ReapOutcome, Option<String>),
    /// Try again.
    Again,
}

/// What to do after one attempt, with the log as text.
pub enum ReapStepView {
    Done(ReapOutcome, Option<Seq<char>>),
    Again,
}

impl View for ReapStep {
    type V = ReapStepView;

    open spec fn view(&self) -> ReapStepView {
        match *self {
            ReapStep::Done(outcome, log) => ReapStepView::Done(outcome, body_text(log)),
            ReapStep::Again => ReapStepView::Again,
        }
    }
}

/// What to do after an attempt that came to `answer`, with `left` more allowed: only an
/// interrupted one is repeated, and only while another is allowed.
pub open spec fn reap_step_of(answer: Waited, left: nat) -> ReapStepView {
    if answer is Interrupted && left > 0 {
        ReapStepView::Again
    } else {
        ReapStepView::Done(reap_result(answer).0, reap_result(answer).1)
    }
}

/// What to do after an attempt that came to `answer`, with `left` more allowed.
pub fn reap_step(answer: Waited, left: u32) -> (r: ReapStep)
    ensures
        r@ == reap_step_of(answer, left as nat),
{
    match answer {
        Waited::Exited(_) => ReapStep::Done(ReapOutcome::Exited, None),
        Waited::Running => ReapStep::Done(ReapOutcome::Running, None),
        Waited::Interrupted => if left > 0 {
            ReapStep::Again
        } else {
            ReapStep::Done(
                ReapOutcome::Inconclusive,
                Some("event=reap-inconclusive detail=\"interrupted past retry cap\"".to_owned()),
            )
        },
        Waited::Failed(e) => {
            let mut body = "event=reap-error error=".to_owned();
            push_text(&mut body, e.as_str());
            ReapStep::Done(ReapOutcome::Inconclusive, Some(body))
        },
    }
}

/// See whether the target has exited. An interrupted attempt is repeated, at most `cap`
/// times, and no other one is. `try_wait` is told how many more attempts are allowed. The
/// second result is to be logged as a warning.
pub fn reap_with_retry<F: FnMut(u32) -> Waited>(try_wait: F, cap: u32) -> (r: (
    ReapOutcome,
    Option<String>,
))
    requires
        call_requires(try_wait, (cap,)),
        forall|left: u32, answer: Waited|
            left > 0 && answer is Interrupted && #[trigger] call_ensures(try_wait, (left,), answer)
                ==> call_requires(try_wait, ((left - 1) as u32,)),
    ensures
        exists|answers: Seq<Waited>|
            #[trigger] reap_answers(try_wait, answers, cap) && (r.0, body_text(r.1)) == reap_result(
                answers.last(),
            ),
{
    let ghost mut answers: Seq<Waited> = seq![];
    let mut wait = try_wait;
    let mut left: u32 = cap;
    loop
        invariant
            wait == try_wait,
            call_requires(try_wait, (left,)),
            forall|left: u32, answer: Waited|
                left > 0 && answer is Interrupted && #[trigger] call_ensures(
                    try_wait,
                    (left,),
                    answer,
                ) ==> call_requires(try_wait, ((left - 1) as u32,)),
            left <= cap,
            answers.len() == cap - left,
            forall|i: int|
                0 <= i < answers.len() ==> call_ensures(
                    try_wait,
                    ((cap - i) as u32,),
                    #[trigger] answers[i],
                ),
            forall|i: int| 0 <= i < answers.len() ==> #[trigger] answers[i] is Interrupted,
        decreases left,
    {
        let answer = wait(left);
        let ghost before = answers;
        proof {
            answers = answers.push(answer);
            assert forall|i: int| 0 <= i < answers.len() implies call_ensures(
                try_wait,
                ((cap - i) as u32,),
                #[trigger] answers[i],
            ) by {
                assert(i < before.len() ==> answers[i] == before[i]);
            }
        }
        match reap_step(answer, left) {
            ReapStep::Done(outcome, log) => {
                assert(reap_answers(try_wait, answers, cap));
                return (outcome, log);
            },
            ReapStep::Again => {
                left = left - 1;
            },
        }
    }
}

/// Whether an answer to reading the memory limit is worth another attempt: a failure
/// always, no limit only if one is expected.
pub open spec fn retryable<X>(answer: Result<Option<u64>, X>, retry_on_none: bool) -> bool {
    match answer {
        Ok(Some(_)) => false,
        Ok(None) => retry_on_none,
        Err(_) => true,
    }
}

/// How many attempts may follow the first one, of `attempts` in all: there is at least
/// one.
pub open spec fn retries_of(attempts: u32) -> u32 {
    if attempts == 0 {
        0
    } else {
        (attempts - 1) as u32
    }
}

/// Whether these are the answers of one read of the memory limit at startup: attempts
/// are repeated as long as they are worth it, at most `retries` times, and there is a pause
/// behind every one that is repeated. Each attempt and each pause is told how many more
/// attempts are allowed.
pub open spec fn limit_answers<X, F: FnMut(u32) -> Result<Option<u64>, X>, P: FnMut(u32)>(
    f: F,
    pause: P,
    answers: Seq<Result<Option<u64>, X>>,
    retries: u32,
    retry_on_none: bool,
) -> bool {
    &&& 1 <= answers.len() <= retries + 1
    &&& forall|i: int|
        0 <= i < answers.len() ==> call_ensures(f, ((retries - i) as u32,), #[trigger] answers[i])
    &&& forall|i: int|
        0 <= i < answers.len() - 1 ==> retryable(#[trigger] answers[i], retry_on_none)
            && call_ensures(pause, ((retries - i) as u32,), ())
    &&& answers.len() <= retries ==> !retryable(answers.last(), retry_on_none)
}

/// Whether the closures may be called as reading the limit at startup calls them: a pause
/// only behind an attempt that is worth another one while one is allowed, and that one only
/// behind the pause.
pub open spec fn limit_calls<X, F: FnMut(u32) -> Result<Option<u64>, X>, P: FnMut(u32)>(
    f: F,
    pause: P,
    retry_on_none: bool,
) -> bool {
    &&& forall|left: u32, answer: Result<Option<u64>, X>|
        left > 0 && retryable(answer, retry_on_none) && #[trigger] call_ensures(f, (left,), answer)
            ==> call_requires(pause, (left,))
    &&& forall|left: u32, unit: ()|
        left > 0 && #[trigger] call_ensures(pause, (left,), unit) ==> call_requires(
            f,
            ((left - 1) as u32,),
        )
}

/// What to do after one attempt to read the memory limit at startup.
#[derive(Debug)]
pub enum LimitStep<X> {
    /// That is the outcome.
    Done(Result<Option<u64>, X>),
    /// Pause, then read again.
    PauseAndRead,
}

/// What to do after an attempt that came to `answer`, with `left` more allowed: one that is
/// worth it is repeated after a pause, while another is allowed. After the last attempt
/// there is no pause.
pub open spec fn limit_step_of<X>(
    answer: Result<Option<u64>, X>,
    left: nat,
    retry_on_none: bool,
) -> LimitStep<X> {
    if retryable(answer, retry_on_none) && left > 0 {
        LimitStep::PauseAndRead
    } else {
        LimitStep::Done(answer)
    }
}

/// What to do after an attempt that came to `answer`, with `left` more allowed.
pub fn limit_step<X>(
    answer: Result<Option<u64>, X>,
    left: u32,
    retry_on_none: bool,
) -> (r: LimitStep<X>)
    ensures
        r == limit_step_of(answer, left as nat, retry_on_none),
{
    let again = match &answer {
        Ok(Some(_)) => false,
        Ok(None) => retry_on_none,
        Err(_) => true,
    };
    if again && left > 0 {
        LimitStep::PauseAndRead
    } else {
        LimitStep::Done(answer)
    }
}

/// Read the memory limit at startup, when the limit may not be there yet. `pause` is
/// called between two attempts. Both are told how many more attempts are allowed.
pub fn read_mem_max_with_retry<X, F: FnMut(u32) -> Result<Option<u64>, X>, P: FnMut(u32)>(
    read: F,
    pause: P,
    attempts: u32,
    retry_on_none: bool,
) -> (r: Result<Option<u64>, X>)
    requires
        call_requires(read, (retries_of(attempts),)),
        limit_calls(read, pause, retry_on_none),
    ensures
        exists|answers: Seq<Result<Option<u64>, X>>|
            #[trigger] limit_answers(read, pause, answers, retries_of(attempts), retry_on_none) && r
                == answers.last(),
{
    let mut read_once = read;
    let mut wait = pause;
    let mut left: u32 = if attempts == 0 {
        0
    } else {
        attempts - 1
    };
    let ghost retries = left;
    let ghost mut answers: Seq<Result<Option<u64>, X>> = seq![];
    loop
        invariant
            read_once == read,
            wait == pause,
            call_requires(read, (left,)),
            limit_calls(read, pause, retry_on_none),
            left <= retries == retries_of(attempts),
            answers.len() == retries - left,
            forall|i: int|
                0 <= i < answers.len() ==> call_ensures(
                    read,
                    ((retries - i) as u32,),
                    #[trigger] answers[i],
                ),
            forall|i: int|
                0 <= i < answers.len() ==> retryable(#[trigger] answers[i], retry_on_none)
                    && call_ensures(pause, ((retries - i) as u32,), ()),
        decreases left,
    {
        let answer = read_once(left);
        let ghost before = answers;
        proof {
            answers = answers.push(answer);
            assert forall|i: int| 0 <= i < answers.len() implies call_ensures(
                read,
                ((retries - i) as u32,),
                #[trigger] answers[i],
            ) by {
                assert(i < before.len() ==> answers[i] == before[i]);
            }
        }
        match limit_step(answer, left, retry_on_none) {
            LimitStep::Done(result) => {
                proof {
                    assert forall|i: int| 0 <= i < answers.len() - 1 implies retryable(
                        #[trigger] answers[i],
                        retry_on_none,
                    ) && call_ensures(pause, ((retries - i) as u32,), ()) by {
                        assert(answers[i] == before[i]);
                    }
                }
                assert(limit_answers(read, pause, answers, retries, retry_on_none));
                return result;
            },
            LimitStep::PauseAndRead => {
                wait(left);
                left = left - 1;
            },
        }
    }
}

/// How often to try to read the limit at startup. Without a threshold the limit is only
/// displayed, and nothing is gained by waiting for it.
pub fn limit_attempts(has_threshold: bool) -> (n: u32)
    ensures
        n == if has_threshold {
            MEM_LIMIT_ATTEMPTS
        } else {
            1
        },
        has_threshold ==> n == 3,
{
    if has_threshold {
        MEM_LIMIT_ATTEMPTS
    } else {
        1
    }
}

/// What is logged when a threshold is set and there is no limit.
pub open spec fn no_limit_body() -> Seq<char> {
    "event=mem-limit-unavailable detail=\"cgroup reports no memory limit at startup; --mem-threshold cannot fire until a limit appears (retried each tick)\""@
}

/// What is logged when a threshold is set and the limit cannot be read.
pub open spec fn unreadable_limit_body(error: Seq<char>, dir: Seq<u8>) -> Seq<char> {
    "event=mem-limit-unreadable error="@ + error + " path="@ + shown_value(lossy_text(dir))
        + " detail=\"--mem-threshold cannot fire until the limit becomes readable (retried each tick)\""@
}

/// The limit to start with, and a warning if a threshold is set that cannot fire without
/// one. `read` is what reading it came to, with the error as text.
pub fn limit_at_startup(
    read: Result<Option<u64>, String>,
    has_threshold: bool,
    memory_dir: &UnixPath,
) -> (r: (Option<u64>, Option<String>))
    ensures
        r.0 == match read {
            Ok(limit) => limit,
            Err(_) => None,
        },
        body_text(r.1) == if !has_threshold {
            None
        } else {
            match read {
                Ok(Some(_)) => None,
                Ok(None) => Some(no_limit_body()),
                Err(e) => Some(unreadable_limit_body(e@, memory_dir.bytes@)),
            }
        },
{
    match read {
        Ok(Some(limit)) => (Some(limit), None),
        Ok(None) => if has_threshold {
            (
                None,
                Some(
                    "event=mem-limit-unavailable detail=\"cgroup reports no memory limit at startup; --mem-threshold cannot fire until a limit appears (retried each tick)\"".to_owned(),
                ),
            )
        } else {
            (None, None)
        },
        Err(e) => if has_threshold {
            let mut body = "event=mem-limit-unreadable error=".to_owned();
            push_text(&mut body, e.as_str());
            push_text(&mut body, " path=");
            let dir = from_utf8_lossy(memory_dir.bytes.as_slice());
            push_text(&mut body, logfmt_value(dir.as_str()).as_str());
            push_text(
                &mut body,
                " detail=\"--mem-threshold cannot fire until the limit becomes readable (retried each tick)\"",
            );
            (None, Some(body))
        } else {
            (None, None)
        },
    }
}

/// Look for a limit that was missing at startup. It is read only while a threshold needs
/// one and none is known; once known it stays.
pub fn refresh_mem_limit<X, F: FnOnce() -> Result<Option<u64>, X>>(
    cached: &mut Option<u64>,
    read: F,
    has_threshold: bool,
)
    requires
        has_threshold && *old(cached) is None ==> call_requires(read, ()),
    ensures
        !has_threshold || *old(cached) is Some ==> *final(cached) == *old(cached),
        has_threshold && *old(cached) is None ==> exists|answer: Result<Option<u64>, X>|
            #[trigger] call_ensures(read, (), answer) && *final(cached) == match answer {
                Ok(limit) => limit,
                Err(_) => None,
            },
{
    if !has_threshold || cached.is_some() {
        return;
    }
    if let Ok(Some(limit)) = read() {
        *cached = Some(limit);
    }
}

/// The characters that cannot stand bare in a logged value: white space, and what delimits
/// keys and values.
pub open spec fn delimits(c: char) -> bool {
    white(c) || c == '"' || c == '='
}

/// A value as it is logged: quoted if it is empty or holds a delimiter, else bare.
pub open spec fn shown_value(s: Seq<char>) -> Seq<char> {
    if s.len() == 0 || exists|i: int| 0 <= i < s.len() && delimits(#[trigger] s[i]) {
        text_debug(s)
    } else {
        s
    }
}

/// A value as it is logged: quoted only when it has to be.
pub fn logfmt_value(s: &str) -> (r: String)
    ensures
        r@ == shown_value(s@),
{
    let chars = chars_of(s);
    let mut i: usize = 0;
    while i < chars.len()
        invariant
            i <= chars@.len(),
            chars@ == s@,
            forall|j: int| 0 <= j < i ==> !delimits(#[trigger] s@[j]),
        decreases chars@.len() - i,
    {
        let c = chars[i];
        if is_white(c) || c == '"' || c == '=' {
            assert(delimits(s@[i as int]));
            return debug_text(s);
        }
        i = i + 1;
    }
    if chars.len() == 0 {
        debug_text(s)
    } else {
        s.to_owned()
    }
}

/// The words of a command line with a space between them.
pub open spec fn command_line(target: Seq<String>) -> Seq<char>
    decreases target.len(),
{
    if target.len() == 0 {
        seq![]
    } else if target.len() == 1 {
        target[0]@
    } else {
        command_line(target.drop_last()) + " "@ + target.last()@
    }
}

fn join_command(target: &Vec<String>) -> (s: String)
    ensures
        s@ == command_line(target@),
{
    let mut s = String::new();
    let mut i: usize = 0;
    while i < target.len()
        invariant
            i <= target@.len(),
            s@ == command_line(target@.take(i as int)),
        decreases target@.len() - i,
    {
        assert(target@.take(i + 1).drop_last() == target@.take(i as int));
        if i > 0 {
            push_text(&mut s, " ");
        }
        push_text(&mut s, target[i].as_str());
        i = i + 1;
        if i == 1 {
            assert(s@ == target@[0]@);
        }
    }
    assert(target@.take(i as int) == target@);
    s
}

/// What identifies the target in a log: its command line and its heartbeat file.
pub open spec fn label_of_target(target: Seq<String>, heartbeat: Option<UnixPath>) -> Seq<char> {
    "target="@ + text_debug(command_line(target)) + " heartbeat="@ + match heartbeat {
        Some(p) => shown_value(lossy_text(p.bytes@)),
        None => "none"@,
    }
}

/// What identifies the target in a log: its command line and its heartbeat file.
pub fn target_label(target: &Vec<String>, heartbeat_file: &Option<UnixPath>) -> (s: String)
    ensures
        s@ == label_of_target(target@, *heartbeat_file),
{
    let command = join_command(target);
    let mut s = "target=".to_owned();
    push_text(&mut s, debug_text(command.as_str()).as_str());
    push_text(&mut s, " heartbeat=");
    match heartbeat_file {
        Some(p) => {
            let path = from_utf8_lossy(p.bytes.as_slice());
            push_text(&mut s, logfmt_value(path.as_str()).as_str());
        },
        None => push_text(&mut s, "none"),
    }
    s
}

/// What is logged about a target that was spawned.
pub open spec fn spawned_body(label: Seq<char>, pid: i32) -> Seq<char> {
    "event=spawned "@ + label + " pid="@ + signed_decimal(pid as int)
}

/// What is logged about a target that was spawned.
pub fn spawned_message(label: &str, pid: i32) -> (s: String)
    ensures
        s@ == spawned_body(label@, pid),
{
    let mut s = "event=spawned ".to_owned();
    push_text(&mut s, label);
    push_text(&mut s, " pid=");
    push_signed(&mut s, pid);
    s
}

/// What is logged about a restart.
pub open spec fn restart_body(
    label: Seq<char>,
    pid: i32,
    reason: RestartReason,
    escalated: bool,
    restarts: u64,
) -> Seq<char> {
    "event=restart "@ + label + " pid="@ + signed_decimal(pid as int) + " reason="@ + reason_text(
        reason,
    ) + " escalated="@ + truth(escalated) + " restarts="@ + decimal(restarts as nat)
}

/// What is logged about a restart. `restarts` were completed before this one; `pid` is
/// the target that is replaced.
pub fn restart_message(
    label: &str,
    pid: i32,
    reason: RestartReason,
    escalated: bool,
    restarts: u64,
) -> (s: String)
    ensures
        s@ == restart_body(label@, pid, reason, escalated, restarts),
{
    let mut s = "event=restart ".to_owned();
    push_text(&mut s, label);
    push_text(&mut s, " pid=");
    push_signed(&mut s, pid);
    push_text(&mut s, " reason=");
    push_text(&mut s, reason_name(reason));
    push_text(&mut s, " escalated=");
    push_truth(&mut s, escalated);
    push_text(&mut s, " restarts=");
    push_decimal(&mut s, restarts);
    s
}

/// What is logged about a crash.
pub open spec fn crash_body(
    label: Seq<char>,
    pid: i32,
    healthy: bool,
    lived: Duration,
) -> Seq<char> {
    "event=crash "@ + label + " pid="@ + signed_decimal(pid as int) + " healthy="@ + truth(healthy)
        + " lived="@ + lived.shown()
}

/// What is logged about a crash.
pub fn crash_message(label: &str, pid: i32, healthy: bool, lived: Duration) -> (s: String)
    ensures
        s@ == crash_body(label@, pid, healthy, lived),
{
    let mut s = "event=crash ".to_owned();
    push_text(&mut s, label);
    push_text(&mut s, " pid=");
    push_signed(&mut s, pid);
    push_text(&mut s, " healthy=");
    push_truth(&mut s, healthy);
    push_text(&mut s, " lived=");
    push_text(&mut s, lived.show().as_str());
    s
}

/// What is logged about giving up on a crash loop.
pub open spec fn crash_loop_body(
    label: Seq<char>,
    pid: i32,
    failures: u32,
    restart_total: u64,
) -> Seq<char> {
    "event=crash-loop "@ + label + " pid="@ + signed_decimal(pid as int) + " failures="@ + decimal(
        failures as nat,
    ) + " restarts="@ + decimal(restart_total as nat) + " action=giving-up"@
}

/// What is logged about giving up on a crash loop: the streak that led there, and how
/// many restarts were completed before.
pub fn crash_loop_message(label: &str, pid: i32, failures: u32, restart_total: u64) -> (s: String)
    ensures
        s@ == crash_loop_body(label@, pid, failures, restart_total),
{
    let mut s = "event=crash-loop ".to_owned();
    push_text(&mut s, label);
    push_text(&mut s, " pid=");
    push_signed(&mut s, pid);
    push_text(&mut s, " failures=");
    push_decimal(&mut s, failures as u64);
    push_text(&mut s, " restarts=");
    push_decimal(&mut s, restart_total);
    push_text(&mut s, " action=giving-up");
    s
}

/// What is logged about a target that outlived SIGKILL.
pub open spec fn unkillable_body() -> Seq<char> {
    "event=unkillable detail=\"target survived SIGKILL within "@ + kill_confirm_window().shown()
        + "; exiting non-zero so tini tears down the container\""@
}

/// What is logged about a target that outlived SIGKILL.
pub fn unkillable_message() -> (s: String)
    ensures
        s@ == unkillable_body(),
{
    let mut s = "event=unkillable detail=\"target survived SIGKILL within ".to_owned();
    push_text(&mut s, kill_confirm().show().as_str());
    push_text(&mut s, "; exiting non-zero so tini tears down the container\"");
    s
}

/// What is logged about where the controllers were found.
pub open spec fn resolved_body(version: CgroupVersion, memory: Seq<u8>, cpu: Seq<u8>) -> Seq<char> {
    "event=cgroup-resolved version="@ + match version {
        CgroupVersion::V1 => "V1"@,
        CgroupVersion::V2 => "V2"@,
    } + " memory_dir="@ + shown_value(lossy_text(memory)) + " cpu_dir="@ + shown_value(
        lossy_text(cpu),
    )
}

/// What is logged about where the controllers were found.
pub fn resolved_message(cg: &CgroupPaths) -> (s: String)
    ensures
        s@ == resolved_body(cg.version, cg.memory_dir.bytes@, cg.cpu_dir.bytes@),
{
    let mut s = "event=cgroup-resolved version=".to_owned();
    match cg.version {
        CgroupVersion::V1 => push_text(&mut s, "V1"),
        CgroupVersion::V2 => push_text(&mut s, "V2"),
    }
    push_text(&mut s, " memory_dir=");
    let memory = from_utf8_lossy(cg.memory_dir.bytes.as_slice());
    push_text(&mut s, logfmt_value(memory.as_str()).as_str());
    push_text(&mut s, " cpu_dir=");
    let cpu = from_utf8_lossy(cg.cpu_dir.bytes.as_slice());
    push_text(&mut s, logfmt_value(cpu.as_str()).as_str());
    s
}

/// Whether `max` is the memory limit to sample with: the known one, or if none is known
/// one that is read now, where that is asked for.
pub open spec fn is_limit<X, R: Fn(&UnixPath) -> Result<String, X>>(
    read: R,
    cg: CgroupPaths,
    cached: Option<u64>,
    recover: bool,
    max: Option<u64>,
) -> bool {
    if cached is Some || !recover {
        max == cached
    } else {
        exists|limit: Result<String, X>|
            #[trigger] answered(read, file_in(cg.memory_dir.bytes@, limit_file(cg.version)), limit)
                && as_nat(max) == match limit_read(cg.version, limit) {
                Ok(limit) => limit,
                Err(_) => None,
            }
    }
}

/// Whether `r` is what sampling the memory comes to: nothing if the usage cannot be
/// read, else the usage and the limit.
pub open spec fn is_mem_sample<X, R: Fn(&UnixPath) -> Result<String, X>>(
    read: R,
    cg: CgroupPaths,
    cached: Option<u64>,
    recover: bool,
    r: Option<MemorySample>,
) -> bool {
    exists|usage: Result<String, X>|
        #[trigger] answered(read, file_in(cg.memory_dir.bytes@, usage_file(cg.version)), usage)
            && match integer_read(usage) {
            Err(_) => r is None,
            Ok(current) => r matches Some(s) && s.current == current && is_limit(
                read,
                cg,
                cached,
                recover,
                s.max,
            ),
        }
}

/// Sample the memory. Where no limit is known, `recover` reads it anew.
pub fn mem_sample<X, R: Fn(&UnixPath) -> Result<String, X>>(
    cg: &CgroupPaths,
    cached_mem_max: Option<u64>,
    recover: bool,
    read: &R,
) -> (r: Option<MemorySample>)
    requires
        askable(*read, file_in(cg.memory_dir.bytes@, usage_file(cg.version))),
        cached_mem_max is None && recover ==> askable(
            *read,
            file_in(cg.memory_dir.bytes@, limit_file(cg.version)),
        ),
    ensures
        is_mem_sample(*read, *cg, cached_mem_max, recover, r),
{
    let current: u64 = match read_memory_current(cg, read) {
        Ok(current) => current,
        Err(_) => {
            return None;
        },
    };
    let max = match cached_mem_max {
        Some(limit) => Some(limit),
        None => if recover {
            match read_memory_max(cg, read) {
                Ok(limit) => limit,
                Err(_) => None,
            }
        } else {
            None
        },
    };
    assert(is_limit(*read, *cg, cached_mem_max, recover, max));
    Some(MemorySample { current, max })
}

/// Whether `ratio` is the memory ratio of a sample.
pub open spec fn is_sample_ratio(sample: Option<MemorySample>, ratio: Option<Binary64>) -> bool {
    match sample {
        None => ratio is None,
        Some(s) => match s.max {
            None => ratio is None,
            Some(max) => ratio matches Some(x) && is_ratio(s.current, max, x),
        },
    }
}

fn sample_ratio(sample: Option<MemorySample>) -> (ratio: Option<Binary64>)
    ensures
        is_sample_ratio(sample, ratio),
{
    match sample {
        Some(s) => s.ratio(),
        None => None,
    }
}

/// The heartbeat as the decision sees it.
pub open spec fn input_of(age: HeartbeatAge) -> HeartbeatInput {
    match age {
        HeartbeatAge::Missing => HeartbeatInput::Missing,
        HeartbeatAge::Unreadable => HeartbeatInput::Unreadable,
        HeartbeatAge::Age(d) => HeartbeatInput::Age(d),
    }
}

/// What is logged about a heartbeat that cannot be read.
pub open spec fn unreadable_heartbeat_body(path: Seq<u8>) -> Seq<char> {
    "event=heartbeat-unreadable heartbeat="@ + shown_value(lossy_text(path))
        + " detail=\"exists but unreadable; treating as no signal (NOT restarting); check permissions/ownership\""@
}

/// What is to be made of the age of a heartbeat. That it cannot be read is to be logged
/// once for every time that it becomes so: `warned` keeps whether it was.
pub fn heartbeat_input(path: &UnixPath, age: HeartbeatAge, warned: &mut bool) -> (r: (
    HeartbeatInput,
    Option<String>,
))
    ensures
        r.0 == input_of(age),
        *final(warned) == (age is Unreadable),
        body_text(r.1) == if age is Unreadable && !*old(warned) {
            Some(unreadable_heartbeat_body(path.bytes@))
        } else {
            None
        },
{
    match age {
        HeartbeatAge::Missing => {
            *warned = false;
            (HeartbeatInput::Missing, None)
        },
        HeartbeatAge::Age(d) => {
            *warned = false;
            (HeartbeatInput::Age(d), None)
        },
        HeartbeatAge::Unreadable => {
            if *warned {
                return (HeartbeatInput::Unreadable, None);
            }
            *warned = true;
            let mut body = "event=heartbeat-unreadable heartbeat=".to_owned();
            let shown = from_utf8_lossy(path.bytes.as_slice());
            push_text(&mut body, logfmt_value(shown.as_str()).as_str());
            push_text(
                &mut body,
                " detail=\"exists but unreadable; treating as no signal (NOT restarting); check permissions/ownership\"",
            );
            (HeartbeatInput::Unreadable, Some(body))
        },
    }
}

/// Whether the heartbeat was sampled right: off without a file, else as old as `age`
/// says, with the latch and the log that go with it.
pub open spec fn heartbeat_sampled<A: Fn(&UnixPath) -> HeartbeatAge>(
    age: A,
    file: Option<UnixPath>,
    warned_before: bool,
    warned: bool,
    input: HeartbeatInput,
    log: Option<Seq<char>>,
) -> bool {
    match file {
        None => input == HeartbeatInput::Disabled && warned == warned_before && log is None,
        Some(p) => exists|a: HeartbeatAge|
            {
                &&& #[trigger] answered(age, p.bytes@, a)
                &&& input == input_of(a)
                &&& warned == (a is Unreadable)
                &&& log == if a is Unreadable && !warned_before {
                    Some(unreadable_heartbeat_body(p.bytes@))
                } else {
                    None
                }
            },
    }
}

/// Whether pressure was sampled right. Where the kernel tells about pressure nothing is
/// sampled; where it is polled the averages are read.
pub open spec fn pressure_sampled<
    H,
    X,
    R: Fn(&UnixPath) -> Result<String, X>,
    N: Fn(&str) -> Option<Binary64>,
>(
    read: R,
    number: N,
    handle: PsiHandle<H>,
    trigger: Option<PsiTrigger>,
    triggered: bool,
) -> bool {
    match (handle, trigger) {
        (PsiHandle::Poll(path), Some(trigger)) => exists|content: Result<String, X>, t: Binary64|
            {
                &&& #[trigger] answered(read, path.bytes@, content)
                &&& #[trigger] is_threshold(trigger, t)
                &&& triggered == reached(number, content, t)
            },
        _ => !triggered,
    }
}

/// Sample what the decision needs while the target is running. `elapsed` is how long it
/// has been. The second result is to be logged as a warning.
pub fn sample<
    H,
    X,
    R: Fn(&UnixPath) -> Result<String, X>,
    A: Fn(&UnixPath) -> HeartbeatAge,
    N: Fn(&str) -> Option<Binary64>,
>(
    cg: &CgroupPaths,
    cached_mem_max: Option<u64>,
    config: &Config,
    psi_handle: &PsiHandle<H>,
    elapsed: Duration,
    heartbeat_unreadable_warned: &mut bool,
    read: &R,
    age: &A,
    number: &N,
) -> (r: (Samples, Option<String>))
    requires
        askable(*read, file_in(cg.memory_dir.bytes@, usage_file(cg.version))),
        *psi_handle matches PsiHandle::Poll(path) ==> config.psi_trigger is Some ==> askable(
            *read,
            path.bytes@,
        ),
        config.heartbeat_file matches Some(p) ==> askable(*age, p.bytes@),
        forall|t: &str| call_requires(*number, (t,)),
        consistent(*number),
    ensures
        r.0.elapsed == elapsed,
        exists|m: Option<MemorySample>|
            #[trigger] is_mem_sample(*read, *cg, cached_mem_max, false, m) && is_sample_ratio(
                m,
                r.0.mem_ratio,
            ),
        heartbeat_sampled(
            *age,
            config.heartbeat_file,
            *old(heartbeat_unreadable_warned),
            *final(heartbeat_unreadable_warned),
            r.0.heartbeat,
            body_text(r.1),
        ),
        pressure_sampled(*read, *number, *psi_handle, config.psi_trigger, r.0.psi_triggered),
{
    let m = mem_sample(cg, cached_mem_max, false, read);
    let mem_ratio = sample_ratio(m);
    let (heartbeat, log) = match &config.heartbeat_file {
        None => (HeartbeatInput::Disabled, None),
        Some(p) => {
            let a = age(p);
            assert(answered(*age, p.bytes@, a));
            heartbeat_input(p, a, heartbeat_unreadable_warned)
        },
    };
    let psi_triggered = match psi_handle {
        PsiHandle::Poll(path) => match &config.psi_trigger {
            Some(trigger) => poll_triggered(path, trigger, read, number),
            None => false,
        },
        PsiHandle::Event(_) | PsiHandle::Unavailable => false,
    };
    (Samples { elapsed, mem_ratio, psi_triggered, heartbeat }, log)
}

/// Whether `r` is the age of the heartbeat for a snapshot: none without a file, and none
/// if it cannot be told.
pub open spec fn is_snapshot_age<A: Fn(&UnixPath) -> HeartbeatAge>(
    age: A,
    file: Option<UnixPath>,
    r: Option<Duration>,
) -> bool {
    match file {
        None => r is None,
        Some(p) => exists|a: HeartbeatAge| #[trigger]
            answered(age, p.bytes@, a) && r == match a {
                HeartbeatAge::Age(d) => Some(d),
                HeartbeatAge::Missing | HeartbeatAge::Unreadable => None,
            },
    }
}

/// Take a snapshot of the process `pid`.
pub fn snapshot<
    X,
    R: Fn(&UnixPath) -> Result<String, X>,
    A: Fn(&UnixPath) -> HeartbeatAge,
    C: Fn(&UnixPath) -> Option<u64>,
    N: Fn(&str) -> Option<Binary64>,
>(
    cg: &CgroupPaths,
    cached_mem_max: Option<u64>,
    config: &Config,
    reason: RestartReason,
    restart_count: u64,
    pid: u32,
    read: &R,
    age: &A,
    count: &C,
    number: &N,
) -> (r: Snapshot)
    requires
        forall|p: &UnixPath| call_requires(*read, (p,)),
        forall|p: &UnixPath| call_requires(*age, (p,)),
        forall|p: &UnixPath| call_requires(*count, (p,)),
        forall|t: &str| call_requires(*number, (t,)),
    ensures
        r.reason == reason,
        r.restart_count == restart_count,
        exists|m: Option<MemorySample>|
            {
                &&& #[trigger] is_mem_sample(*read, *cg, cached_mem_max, true, m)
                &&& is_sample_ratio(m, r.mem_ratio)
                &&& r.mem_current == match m {
                    Some(s) => Some(s.current),
                    None => None,
                }
                &&& r.mem_max == match m {
                    Some(s) => s.max,
                    None => None,
                }
            },
        is_cpu_ceiling(*read, *number, *cg, r.cpu_quota_ratio),
        is_thread_count(*read, pid, r.threads),
        answered(*count, process_file(pid, "/fd"@), r.open_fds),
        is_snapshot_age(*age, config.heartbeat_file, r.heartbeat_age),
{
    let m = mem_sample(cg, cached_mem_max, true, read);
    let heartbeat_age = match &config.heartbeat_file {
        None => None,
        Some(p) => {
            let a = age(p);
            assert(answered(*age, p.bytes@, a));
            match a {
                HeartbeatAge::Age(d) => Some(d),
                HeartbeatAge::Missing | HeartbeatAge::Unreadable => None,
            }
        },
    };
    let (mem_current, mem_max): (Option<u64>, Option<u64>) = match m {
        Some(s) => (Some(s.current), s.max),
        None => (None, None),
    };
    Snapshot {
        reason,
        restart_count,
        mem_current,
        mem_max,
        mem_ratio: sample_ratio(m),
        cpu_quota_ratio: read_cpu(cg, read, number),
        threads: proc_threads(pid, read),
        open_fds: proc_open_fds(pid, count),
        heartbeat_age,
    }
}

/// How often pressure may be reopened after startup. Only a file that was not there can
/// turn up later; one that takes no trigger never will.
pub fn initial_psi_reopen_budget<H>(trigger_configured: bool, handle: &PsiHandle<H>) -> (n: u32)
    ensures
        n == if trigger_configured && *handle is Unavailable {
            PSI_REOPEN_ATTEMPTS
        } else {
            0
        },
        trigger_configured && *handle is Unavailable ==> n == 30,
{
    match handle {
        PsiHandle::Unavailable => if trigger_configured {
            PSI_REOPEN_ATTEMPTS
        } else {
            0
        },
        PsiHandle::Event(_) | PsiHandle::Poll(_) => 0,
    }
}

/// Whether to try to reopen pressure on this tick.
pub fn should_attempt_psi_reopen<H>(
    handle: &PsiHandle<H>,
    trigger_configured: bool,
    budget: u32,
) -> (b: bool)
    ensures
        b == (budget > 0 && trigger_configured && !(*handle is Event)),
{
    match handle {
        PsiHandle::Event(_) => false,
        PsiHandle::Poll(_) | PsiHandle::Unavailable => budget > 0 && trigger_configured,
    }
}

/// What is logged when pressure could be opened but not watched.
pub open spec fn reopen_failed_body(error: Seq<char>) -> Seq<char> {
    "event=psi-reopen-failed error="@ + error
        + " detail=\"reopened but epoll registration failed; will retry\""@
}

/// Something to log, as text.
pub open spec fn log_text(log: Option<(LogLevel, String)>) -> Option<(LogLevel, Seq<char>)> {
    match log {
        Some((level, body)) => Some((level, body@)),
        None => None,
    }
}

/// Try once to watch pressure after all. Every try uses up one of the budget; success
/// ends the trying. `opener` opens pressure, `register` watches the handle or says why it
/// cannot.
pub fn maybe_reopen_psi<
    H,
    O: Fn(&PsiTrigger) -> PsiHandle<H>,
    G: Fn(&H) -> Option<String>,
>(
    psi_handle: &mut PsiHandle<H>,
    psi_reopen_left: &mut u32,
    trigger: &Option<PsiTrigger>,
    opener: &O,
    register: &G,
) -> (log: Option<(LogLevel, String)>)
    requires
        *old(psi_reopen_left) > 0 && *trigger is Some && !(*old(psi_handle) is Event)
            ==> call_requires(*opener, (&trigger->0,)) && forall|h: H|
            call_ensures(*opener, (&trigger->0,), PsiHandle::Event(h)) ==> #[trigger] call_requires(
                *register,
                (&h,),
            ),
    ensures
        ({
            let attempt = *old(psi_reopen_left) > 0 && *trigger is Some && !(*old(psi_handle)
                is Event);
            let unchanged = *final(psi_handle) == *old(psi_handle);
            let used = *final(psi_reopen_left) == *old(psi_reopen_left) - 1;
            &&& !attempt ==> unchanged && *final(psi_reopen_left) == *old(psi_reopen_left) && log
                is None
            &&& attempt ==> exists|reopened: PsiHandle<H>|
                #[trigger] call_ensures(*opener, (&trigger->0,), reopened) && match reopened {
                    PsiHandle::Event(h) => exists|error: Option<String>|
                        #[trigger] call_ensures(*register, (&h,), error) && match error {
                            None => *final(psi_handle) == reopened && *final(psi_reopen_left) == 0
                                && log_text(log) == Some(
                                (LogLevel::Info, "event=psi-active detail=\"event mode\""@),
                            ),
                            Some(e) => unchanged && used && log_text(log) == Some(
                                (LogLevel::Warn, reopen_failed_body(e@)),
                            ),
                        },
                    _ => unchanged && used && log is None,
                }
        }),
{
    let t = match trigger {
        Some(t) => t,
        None => {
            return None;
        },
    };
    if !should_attempt_psi_reopen(&*psi_handle, true, *psi_reopen_left) {
        return None;
    }
    *psi_reopen_left = *psi_reopen_left - 1;
    let reopened = opener(t);
    match &reopened {
        PsiHandle::Event(h) => {
            let error = register(h);
            match error {
                None => {
                    *psi_handle = reopened;
                    *psi_reopen_left = 0;
                    Some((LogLevel::Info, "event=psi-active detail=\"event mode\"".to_owned()))
                },
                Some(e) => {
                    let mut body = "event=psi-reopen-failed error=".to_owned();
                    push_text(&mut body, e.as_str());
                    push_text(
                        &mut body,
                        " detail=\"reopened but epoll registration failed; will retry\"",
                    );
                    Some((LogLevel::Warn, body))
                },
            }
        },
        PsiHandle::Poll(_) | PsiHandle::Unavailable => None,
    }
}

/// What is logged about pressure that is given up on.
pub open spec fn psi_disabled_body() -> Seq<char> {
    "event=psi-disabled reason=fd-error-or-hangup"@
}

/// Give up on pressure after its descriptor broke. That is not a slow start, so it is not
/// reopened either. The first result is the handle that was watched, if there was one;
/// the second is to be logged as a warning.
pub fn disable_psi<H>(psi_handle: PsiHandle<H>, psi_reopen_left: &mut u32) -> (r: (
    PsiHandle<H>,
    Option<H>,
    String,
))
    ensures
        r.0 is Unavailable,
        *final(psi_reopen_left) == 0,
        r.1 == match psi_handle {
            PsiHandle::Event(h) => Some(h),
            _ => None,
        },
        r.2@ == psi_disabled_body(),
{
    *psi_reopen_left = 0;
    let watched = match psi_handle {
        PsiHandle::Event(h) => Some(h),
        PsiHandle::Poll(_) | PsiHandle::Unavailable => None,
    };
    (PsiHandle::Unavailable, watched, "event=psi-disabled reason=fd-error-or-hangup".to_owned())
}

/// What is logged about a target that could not be launched.
pub open spec fn spawn_failed_body(initial: bool, error: Seq<char>) -> Seq<char> {
    "event=spawn-failed phase="@ + (if initial {
        "initial"@
    } else {
        "respawn"@
    }) + " error="@ + error
}

/// What is logged about a target that could not be launched, at first or again.
pub fn spawn_failed_message(initial: bool, error: &str) -> (s: String)
    ensures
        s@ == spawn_failed_body(initial, error@),
{
    let mut s = "event=spawn-failed phase=".to_owned();
    if initial {
        push_text(&mut s, "initial");
    } else {
        push_text(&mut s, "respawn");
    }
    push_text(&mut s, " error=");
    push_text(&mut s, error);
    s
}

/// Something for the program to do.
#[derive(Debug)]
pub enum Command {
    /// Launch the target and report what came of it.
    Spawn,
    /// Send the graceful signal to the target's process group.
    Signal(GracefulKind),
    /// Send SIGKILL to the target's process group.
    Kill,
    /// Set the action timer.
    ArmTimer(TimerSpec),
    /// Stop the action timer.
    DisarmTimer,
    /// Take a snapshot of the target and keep it.
    Capture { reason: RestartReason, restart_count: u64 },
    /// Send an alert.
    Send { snapshot: Snapshot, severity: Severity },
    /// Take a snapshot of what the target left behind and send it as an alert.
    AlertCrashLoop { reason: RestartReason, restart_count: u64, severity: Severity },
    /// Log a line.
    Log { level: LogLevel, body: String },
    /// Exit with this code.
    Exit(i32),
}

/// Something for the program to do, with texts as texts.
pub enum CommandView {
    Spawn,
    Signal(GracefulKind),
    Kill,
    ArmTimer(TimerSpec),
    DisarmTimer,
    Capture { reason: RestartReason, restart_count: u64 },
    Send { snapshot: Snapshot, severity: Severity },
    AlertCrashLoop { reason: RestartReason, restart_count: u64, severity: Severity },
    Log { level: LogLevel, body: Seq<char> },
    Exit(i32),
}

impl View for Command {
    type V = CommandView;

    open spec fn view(&self) -> CommandView {
        match *self {
            Command::Spawn => CommandView::Spawn,
            Command::Signal(kind) => CommandView::Signal(kind),
            Command::Kill => CommandView::Kill,
            Command::ArmTimer(t) => CommandView::ArmTimer(t),
            Command::DisarmTimer => CommandView::DisarmTimer,
            Command::Capture { reason, restart_count } => CommandView::Capture {
                reason,
                restart_count,
            },
            Command::Send { snapshot, severity } => CommandView::Send { snapshot, severity },
            Command::AlertCrashLoop { reason, restart_count, severity } => {
                CommandView::AlertCrashLoop { reason, restart_count, severity }
            },
            Command::Log { level, body } => CommandView::Log { level, body: body@ },
            Command::Exit(code) => CommandView::Exit(code),
        }
    }
}

/// The commands with texts as texts.
pub open spec fn command_views(v: Seq<Command>) -> Seq<CommandView> {
    Seq::new(v.len(), |i: int| v[i]@)
}

/// What is logged about a drain alert that has no snapshot to send.
pub open spec fn missing_snapshot_body(reason: RestartReason, escalated: bool) -> Seq<char> {
    "event=internal detail=\"drain alert had no captured snapshot; alert dropped\" reason="@
        + reason_text(reason) + " escalated="@ + truth(escalated)
}

/// How an action is carried out, given the accounting and the kept snapshot.
pub open spec fn commands_of(
    action: Action,
    ctx: Ctx,
    stash: Option<Snapshot>,
    label: Seq<char>,
    pid: i32,
) -> Seq<CommandView> {
    match action {
        Action::Spawn => seq![CommandView::Spawn],
        Action::SignalGraceful => seq![CommandView::Signal(ctx.graceful)],
        Action::SignalKill => seq![CommandView::Kill],
        Action::ArmActionTimer(d) => seq![CommandView::ArmTimer(timer_for(d))],
        Action::DisarmActionTimer => seq![CommandView::DisarmTimer],
        Action::CaptureSnapshot { reason, restart_count } => seq![
            CommandView::Capture { reason, restart_count },
        ],
        Action::SendDrainAlert { reason, escalated } => match severity_of(
            reason,
            escalated,
            false,
        ) {
            Some(severity) => match stash {
                Some(snapshot) => seq![CommandView::Send { snapshot, severity }],
                None => seq![
                    CommandView::Log {
                        level: LogLevel::Error,
                        body: missing_snapshot_body(reason, escalated),
                    },
                ],
            },
            None => seq![
                CommandView::Log {
                    level: LogLevel::Warn,
                    body: restart_body(label, pid, reason, escalated, ctx.restart_total),
                },
            ],
        },
        Action::LogCrash { healthy, lived } => seq![
            CommandView::Log {
                level: LogLevel::Warn,
                body: crash_body(label, pid, healthy, lived),
            },
        ],
        Action::CrashLoopGiveUp { failures, restart_count } => seq![
            CommandView::AlertCrashLoop {
                reason: RestartReason::Crash,
                restart_count,
                severity: Severity::Critical,
            },
            CommandView::Log {
                level: LogLevel::Error,
                body: crash_loop_body(label, pid, failures, restart_count),
            },
        ],
        Action::Unkillable { reason } => {
            let log = seq![CommandView::Log { level: LogLevel::Error, body: unkillable_body() }];
            match stash {
                Some(snapshot) => seq![
                    CommandView::Send { snapshot, severity: Severity::Critical },
                ] + log,
                None => log,
            }
        },
        Action::Exit(code) => seq![CommandView::Exit(code)],
    }
}

/// The snapshot that is kept after an action was carried out: an alert uses it up.
pub open spec fn stash_left(action: Action, stash: Option<Snapshot>) -> Option<Snapshot> {
    match action {
        Action::SendDrainAlert { reason, escalated } => if severity_of(reason, escalated, false)
            is Some {
            None
        } else {
            stash
        },
        Action::Unkillable { .. } => None,
        _ => stash,
    }
}

/// Whether there is a living target, which has to be waited for before anything else is
/// looked at.
pub fn state_implies_live_child(state: State) -> (b: bool)
    ensures
        b == (state is Running || state is Draining || state is Killing),
{
    matches!(state, State::Running | State::Draining { .. } | State::Killing { .. })
}

/// The state of the event loop.
#[derive(Debug)]
pub struct Supervisor {
    pub state: State,
    pub ctx: Ctx,
    /// The snapshot of a target that is being taken down.
    pub stash: Option<Snapshot>,
    /// The events that were not handled yet.
    pub pending: VecDeque<Event>,
}

/// The accounting to start with.
pub open spec fn initial_ctx(config: Config) -> Ctx {
    Ctx {
        limits: crate::decision::DecisionLimits {
            restart_interval: config.restart_interval,
            mem_threshold: config.mem_threshold,
            heartbeat_max_age: config.heartbeat_max_age,
            startup_grace: config.startup_grace,
        },
        failures: 0,
        restart_total: 0,
        grace_period: config.grace_period,
        backoff: config.backoff,
        startup_grace: config.startup_grace,
        max_failures: config.max_failures,
        graceful: match config.graceful_signal {
            GracefulSignal::Term => GracefulKind::Term,
            GracefulSignal::Int => GracefulKind::Int,
        },
    }
}

impl Supervisor {
    /// Everything but the events that wait is as it was.
    pub open spec fn same_but_pending(self, other: Supervisor) -> bool {
        self.state == other.state && self.ctx == other.ctx && self.stash == other.stash
    }

    /// A supervisor whose target was just spawned.
    pub fn new(config: &Config) -> (r: Supervisor)
        ensures
            r.state == State::Running,
            r.ctx == initial_ctx(*config),
            r.ctx.grace_period == config.grace_period,
            r.ctx.backoff == config.backoff,
            r.ctx.startup_grace == config.startup_grace,
            r.ctx.max_failures == config.max_failures,
            r.ctx.graceful == GracefulKind::Term <==> config.graceful_signal
                == GracefulSignal::Term,
            r.ctx.failures == 0,
            r.ctx.restart_total == 0,
            r.ctx.limits.restart_interval == config.restart_interval,
            r.ctx.limits.mem_threshold == config.mem_threshold,
            r.ctx.limits.heartbeat_max_age == config.heartbeat_max_age,
            r.ctx.limits.startup_grace == config.startup_grace,
            r.stash is None,
            r.pending@ == Seq::<Event>::empty(),
    {
        let graceful = match config.graceful_signal {
            GracefulSignal::Term => GracefulKind::Term,
            GracefulSignal::Int => GracefulKind::Int,
        };
        let ctx = Ctx {
            limits: config.decision_limits(),
            failures: 0,
            restart_total: 0,
            grace_period: config.grace_period,
            backoff: config.backoff,
            startup_grace: config.startup_grace,
            max_failures: config.max_failures,
            graceful,
        };
        Supervisor { state: State::Running, ctx, stash: None, pending: VecDeque::new() }
    }

    /// A wakeup begins: what waiting for the target came to. Only a confirmed exit of a
    /// target that should be alive is an event, and it goes first.
    pub fn reaped(&mut self, outcome: ReapOutcome)
        requires
            old(self).pending@.len() == 0,
        ensures
            final(self).same_but_pending(*old(self)),
            final(self).pending@ == if outcome == ReapOutcome::Exited && (old(self).state is Running
                || old(self).state is Draining || old(self).state is Killing) {
                seq![Event::ChildExited]
            } else {
                seq![]
            },
    {
        if matches!(outcome, ReapOutcome::Exited) && state_implies_live_child(self.state) {
            self.pending.push_back(Event::ChildExited);
        }
        assert(self.pending@ == if outcome == ReapOutcome::Exited && (old(self).state is Running
            || old(self).state is Draining || old(self).state is Killing) {
            seq![Event::ChildExited]
        } else {
            seq![]
        });
    }

    /// A signal was received.
    pub fn signalled(&mut self, signum: i32)
        ensures
            final(self).same_but_pending(*old(self)),
            final(self).pending@ == if signum == 15 || signum == 2 {
                old(self).pending@.push(Event::OperatorStop)
            } else {
                old(self).pending@
            },
    {
        if let Some(event) = signal_event(signum) {
            self.pending.push_back(event);
        }
    }

    /// The tick timer fired.
    pub fn ticked(&mut self)
        ensures
            final(self).same_but_pending(*old(self)),
            final(self).pending@ == old(self).pending@.push(Event::Tick),
    {
        self.pending.push_back(Event::Tick);
    }

    /// The action timer fired.
    pub fn timer_fired(&mut self)
        ensures
            final(self).same_but_pending(*old(self)),
            final(self).pending@ == old(self).pending@.push(Event::TimerExpired),
    {
        self.pending.push_back(Event::TimerExpired);
    }

    /// The pressure descriptor is ready: the result says whether it is broken and has to
    /// be given up. Otherwise pressure crossed its threshold.
    pub fn psi_ready(&mut self, flags: i32) -> (fatal: bool)
        ensures
            final(self).same_but_pending(*old(self)),
            fatal == (flags & 0x18 != 0),
            final(self).pending@ == if fatal {
                old(self).pending@
            } else {
                old(self).pending@.push(Event::PsiEdge)
            },
    {
        if psi_ready_is_fatal(flags) {
            true
        } else {
            self.pending.push_back(Event::PsiEdge);
            false
        }
    }

    /// A commanded spawn came out like this.
    pub fn spawn_finished(&mut self, started: bool)
        ensures
            final(self).same_but_pending(*old(self)),
            final(self).pending@ == old(self).pending@.push(
                Event::SpawnResult(
                    if started {
                        SpawnOutcome::Started
                    } else {
                        SpawnOutcome::Failed
                    },
                ),
            ),
    {
        let outcome = if started {
            SpawnOutcome::Started
        } else {
            SpawnOutcome::Failed
        };
        self.pending.push_back(Event::SpawnResult(outcome));
    }

    /// The next event to handle; the oldest comes first.
    pub fn next_event(&mut self) -> (r: Option<Event>)
        ensures
            final(self).same_but_pending(*old(self)),
            r is None <==> old(self).pending@.len() == 0,
            r matches Some(event) ==> event == old(self).pending@[0],
            final(self).pending@ == if old(self).pending@.len() == 0 {
                old(self).pending@
            } else {
                old(self).pending@.drop_first()
            },
    {
        self.pending.pop_front()
    }

    /// Whether samples are looked at in this state. In every other one the reads can be
    /// spared.
    pub fn needs_samples(&self) -> (b: bool)
        ensures
            b == (self.state is Running),
    {
        matches!(self.state, State::Running)
    }

    /// Handle an event: the actions to carry out in order.
    pub fn handle(&mut self, event: Event, samples: &Samples) -> (acts: Vec<Action>)
        ensures
            (final(self).state, final(self).ctx, acts@) == stepped(
                old(self).state,
                old(self).ctx,
                event,
                *samples,
            ),
            final(self).stash == old(self).stash,
            final(self).pending@ == old(self).pending@,
    {
        let mut ctx = self.ctx;
        let (state, acts) = step(self.state, &mut ctx, event, samples);
        self.state = state;
        self.ctx = ctx;
        acts
    }

    /// How an action is to be carried out. `label` and `pid` identify the target in logs.
    pub fn carry_out(&mut self, action: Action, label: &str, pid: i32) -> (v: Vec<Command>)
        ensures
            command_views(v@) == commands_of(
                action,
                old(self).ctx,
                old(self).stash,
                label@,
                pid,
            ),
            final(self).stash == stash_left(action, old(self).stash),
            final(self).state == old(self).state,
            final(self).ctx == old(self).ctx,
            final(self).pending@ == old(self).pending@,
    {
        let ghost stash = self.stash;
        let v = match action {
            Action::Spawn => vec![Command::Spawn],
            Action::SignalGraceful => vec![Command::Signal(self.ctx.graceful)],
            Action::SignalKill => vec![Command::Kill],
            Action::ArmActionTimer(d) => vec![Command::ArmTimer(timespec(d))],
            Action::DisarmActionTimer => vec![Command::DisarmTimer],
            Action::CaptureSnapshot { reason, restart_count } => {
                vec![Command::Capture { reason, restart_count }]
            },
            Action::SendDrainAlert { reason, escalated } => {
                match classify(reason, escalated, false) {
                    Some(severity) => {
                        let kept = self.stash;
                        self.stash = None;
                        match kept {
                            Some(snapshot) => vec![Command::Send { snapshot, severity }],
                            None => {
                                let mut body =
                                    "event=internal detail=\"drain alert had no captured snapshot; alert dropped\" reason=".to_owned();
                                push_text(&mut body, reason_name(reason));
                                push_text(&mut body, " escalated=");
                                push_truth(&mut body, escalated);
                                vec![Command::Log { level: LogLevel::Error, body }]
                            },
                        }
                    },
                    None => {
                        let body = restart_message(
                            label,
                            pid,
                            reason,
                            escalated,
                            self.ctx.restart_total,
                        );
                        vec![Command::Log { level: LogLevel::Warn, body }]
                    },
                }
            },
            Action::LogCrash { healthy, lived } => {
                let body = crash_message(label, pid, healthy, lived);
                vec![Command::Log { level: LogLevel::Warn, body }]
            },
            Action::CrashLoopGiveUp { failures, restart_count } => {
                let body = crash_loop_message(label, pid, failures, restart_count);
                vec![
                    Command::AlertCrashLoop {
                        reason: RestartReason::Crash,
                        restart_count,
                        severity: Severity::Critical,
                    },
                    Command::Log { level: LogLevel::Error, body },
                ]
            },
            Action::Unkillable { .. } => {
                let kept = self.stash;
                self.stash = None;
                let body = unkillable_message();
                let log = Command::Log { level: LogLevel::Error, body };
                match kept {
                    Some(snapshot) => {
                        vec![Command::Send { snapshot, severity: Severity::Critical }, log]
                    },
                    None => vec![log],
                }
            },
            Action::Exit(code) => vec![Command::Exit(code)],
        };
        assert(command_views(v@) == commands_of(action, self.ctx, stash, label@, pid));
        v
    }

    /// Keep the snapshot of a target that is about to be taken down.
    pub fn keep(&mut self, snapshot: Snapshot)
        ensures
            final(self).stash == Some(snapshot),
            final(self).state == old(self).state,
            final(self).ctx == old(self).ctx,
            final(self).pending@ == old(self).pending@,
    {
        self.stash = Some(snapshot);
    }
}

} // verus!
