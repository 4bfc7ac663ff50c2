//! Alerting. Only anomalies raise an alert: SIGKILL escalation, crash loops, and
//! restarts for memory or pressure. Routine restarts are logged.
//!
//! Alerts wait in a bounded queue until a worker delivers them, so that a slow endpoint
//! can neither stall the supervisor nor make the queue grow without limit. A flood of
//! warnings never crowds out a critical alert.

use crate::binary64::Binary64;
use crate::decision::RestartReason;
use crate::diagnostics::Snapshot;
use crate::text::{decimal, push_decimal, push_text};
use crate::time::Duration;
use std::collections::VecDeque;
use vstd::arithmetic::power2::{lemma2_to64, lemma_pow2_pos, lemma_pow2_unfold, pow2};
use vstd::prelude::*;

verus! {

/// How many alerts may wait for delivery.
pub const ALERT_QUEUE_CAPACITY: usize = 128;

/// How long the delivery of one alert may take, in seconds.
pub const DELIVERY_TIMEOUT_SECS: u64 = 5;

/// Alert severity.
#[derive(Clone, Copy, PartialEq, Eq, Debug, Structural)]
pub enum Severity {
    Warning,
    Critical,
}

impl Severity {
    /// The severity as it stands in an alert.
    pub fn as_str(self) -> (s: &'static str)
        ensures
            s@ == severity_text(self),
    {
        match self {
            Severity::Warning => "warning",
            Severity::Critical => "critical",
        }
    }
}

/// A destination for alerts.
pub trait AlertSink: Send + Sync {
    fn send(&self, snapshot: &Snapshot, severity: Severity);
}

/// Discards everything; for when there is nowhere to send alerts to.
pub struct NullSink;

impl AlertSink for NullSink {
    fn send(&self, _snapshot: &Snapshot, _severity: Severity) {
    }
}

/// How severe an event is, or `None` if it is only logged. Having had to send SIGKILL,
/// or giving up on a crash loop, is always critical.
pub open spec fn severity_of(
    reason: RestartReason,
    escalated: bool,
    crash_loop: bool,
) -> Option<Severity> {
    if escalated || crash_loop {
        Some(Severity::Critical)
    } else if reason == RestartReason::Memory || reason == RestartReason::Psi {
        Some(Severity::Warning)
    } else {
        None
    }
}

/// How severe an event is, or `None` if it is only logged.
pub fn classify(reason: RestartReason, escalated: bool, crash_loop: bool) -> (r: Option<Severity>)
    ensures
        r == severity_of(reason, escalated, crash_loop),
{
    if escalated || crash_loop {
        return Some(Severity::Critical);
    }
    match reason {
        RestartReason::Memory | RestartReason::Psi => Some(Severity::Warning),
        RestartReason::Periodic
        | RestartReason::HeartbeatStale
        | RestartReason::Crash
        | RestartReason::Shutdown => None,
    }
}

/// The name of a reason.
pub open spec fn reason_text(reason: RestartReason) -> Seq<char> {
    match reason {
        RestartReason::Periodic => "Periodic"@,
        RestartReason::Memory => "Memory"@,
        RestartReason::Psi => "Psi"@,
        RestartReason::HeartbeatStale => "HeartbeatStale"@,
        RestartReason::Crash => "Crash"@,
        RestartReason::Shutdown => "Shutdown"@,
    }
}

/// The name of a reason.
pub fn reason_name(reason: RestartReason) -> (s: &'static str)
    ensures
        s@ == reason_text(reason),
{
    match reason {
        RestartReason::Periodic => "Periodic",
        RestartReason::Memory => "Memory",
        RestartReason::Psi => "Psi",
        RestartReason::HeartbeatStale => "HeartbeatStale",
        RestartReason::Crash => "Crash",
        RestartReason::Shutdown => "Shutdown",
    }
}

/// An alert that waits for delivery.
pub type Alert = (Snapshot, Severity);

/// The alerts that wait for delivery.
#[derive(Debug)]
pub struct AlertQueue {
    /// The oldest comes first.
    pub items: VecDeque<Alert>,
    /// The worker is to deliver what is left and exit.
    pub shutdown: bool,
    /// How many alerts were shed because the queue was full.
    pub dropped: u64,
    /// It was logged already that the worker is gone.
    pub death_logged: bool,
}

/// What is to be done about an alert that was sent.
#[derive(Debug)]
pub struct Sent {
    /// Wake the worker.
    pub notify: bool,
    /// Log this line.
    pub log: Option<String>,
}

/// What the worker is to do next.
#[derive(Clone, Copy, PartialEq, Eq, Debug, Structural)]
pub enum Work {
    /// Deliver this alert.
    Deliver(Snapshot, Severity),
    /// Wait until something is sent or the end is announced.
    Wait,
    /// Everything is delivered: exit.
    Exit,
}

/// Where the oldest alert stands that is not critical, or the length if all are.
pub open spec fn oldest_warning(items: Seq<Alert>) -> nat
    decreases items.len(),
{
    if items.len() == 0 || items[0].1 != Severity::Critical {
        0
    } else {
        1 + oldest_warning(items.drop_first())
    }
}

/// The alerts that wait after `alert` was sent, and whether one was shed. With room
/// left it is put last. A full queue sheds a warning that is sent; for a critical alert
/// it sheds its oldest warning, and only if it has none the critical alert itself.
pub open spec fn after_send(items: Seq<Alert>, alert: Alert) -> (Seq<Alert>, bool) {
    if items.len() < ALERT_QUEUE_CAPACITY {
        (items.push(alert), false)
    } else if alert.1 == Severity::Critical && oldest_warning(items) < items.len() {
        (items.remove(oldest_warning(items) as int).push(alert), true)
    } else {
        (items, true)
    }
}

/// The powers of two.
pub open spec fn power_of_two(n: nat) -> bool {
    exists|k: nat| n == #[trigger] pow2(k)
}

/// What is logged about an alert that was sent to a full queue, `n` having been shed so
/// far. Shedding warnings is logged only at powers of two, so that a storm cannot flood
/// the log; losing a critical alert is always logged.
pub open spec fn shed_log(items: Seq<Alert>, severity: Severity, n: nat) -> Option<Seq<char>> {
    let end = "(total dropped: "@ + decimal(n) + ")"@;
    if severity == Severity::Critical && oldest_warning(items) >= items.len() {
        Some(
            "draug: webhook alert queue full of undelivered Critical alerts; dropping a Critical "@
                + end,
        )
    } else if !power_of_two(n) {
        None
    } else if severity == Severity::Critical {
        Some("draug: webhook alert queue full, evicted a Warning to admit a Critical "@ + end)
    } else {
        Some("draug: webhook alert queue full, dropping Warning alert "@ + end)
    }
}

/// The line that says that the worker is gone.
pub open spec fn death_line() -> Seq<char> {
    "draug: webhook alert worker is not running; alerts will not be delivered"@
}

/// An optional line as text.
pub open spec fn line_text(line: Option<String>) -> Option<Seq<char>> {
    match line {
        Some(s) => Some(s@),
        None => None,
    }
}

proof fn lemma_oldest_warning(items: Seq<Alert>)
    ensures
        oldest_warning(items) <= items.len(),
        forall|i: int| 0 <= i < oldest_warning(items) ==> items[i].1 == Severity::Critical,
        oldest_warning(items) < items.len() ==> items[oldest_warning(items) as int].1
            == Severity::Warning,
    decreases items.len(),
{
    if items.len() > 0 && items[0].1 == Severity::Critical {
        lemma_oldest_warning(items.drop_first());
        assert forall|i: int| 0 <= i < oldest_warning(items) implies items[i].1
            == Severity::Critical by {
            if i > 0 {
                assert(items[i] == items.drop_first()[i - 1]);
            }
        }
    }
}

/// Whether a positive number is a power of two.
fn is_power_of_two(n: u64) -> (r: bool)
    requires
        n > 0,
    ensures
        r == power_of_two(n as nat),
{
    let mut m: u64 = n;
    let ghost mut k: nat = 0;
    proof {
        lemma2_to64();
        assert(m * 1 == m);
    }
    while m % 2 == 0
        invariant
            m > 0,
            n == m * pow2(k),
        decreases m,
    {
        proof {
            lemma_pow2_unfold(k + 1);
            let p = pow2(k) as int;
            let h = m as int / 2;
            assert(m == 2 * h);
            assert((2 * h) * p == h * (2 * p)) by (nonlinear_arith);
            k = k + 1;
        }
        m = m / 2;
    }
    proof {
        if m == 1 {
            assert(1 * pow2(k) == pow2(k));
            assert(n == pow2(k));
        } else if power_of_two(n as nat) {
            let j = choose|j: nat| n == #[trigger] pow2(j);
            lemma_odd_part(m as int, k, j);
        }
    }
    m == 1
}

/// An odd number times a power of two is a power of two only if the odd number is one.
proof fn lemma_odd_part(m: int, k: nat, j: nat)
    requires
        m > 0,
        m % 2 == 1,
        m * pow2(k) == pow2(j),
    ensures
        m == 1,
    decreases k,
{
    lemma2_to64();
    if k == 0 {
        assert(m * 1 == m);
        if j > 0 {
            lemma_pow2_unfold(j);
        }
    } else {
        lemma_pow2_unfold(k);
        let p = pow2((k - 1) as nat) as int;
        lemma_pow2_pos((k - 1) as nat);
        assert(m * (2 * p) == 2 * (m * p)) by (nonlinear_arith);
        if j == 0 {
            assert(false);
        } else {
            lemma_pow2_unfold(j);
            lemma_odd_part(m, (k - 1) as nat, (j - 1) as nat);
        }
    }
}

fn total_dropped(text: &str, n: u64) -> (s: String)
    ensures
        s@ == text@ + ("(total dropped: "@ + decimal(n as nat) + ")"@),
{
    let mut s = text.to_owned();
    push_text(&mut s, "(total dropped: ");
    push_decimal(&mut s, n);
    push_text(&mut s, ")");
    assert(s@ == text@ + ("(total dropped: "@ + decimal(n as nat) + ")"@));
    s
}

impl AlertQueue {
    /// Nothing waits.
    pub fn new() -> (q: AlertQueue)
        ensures
            q.items@ == Seq::<Alert>::empty(),
            !q.shutdown,
            q.dropped == 0,
            !q.death_logged,
    {
        AlertQueue { items: VecDeque::new(), shutdown: false, dropped: 0, death_logged: false }
    }

    fn find_warning(&self) -> (n: usize)
        ensures
            n == oldest_warning(self.items@),
            n <= self.items@.len(),
    {
        let mut i: usize = 0;
        assert(self.items@.skip(0) == self.items@);
        while i < self.items.len()
            invariant
                i <= self.items@.len(),
                oldest_warning(self.items@) == i + oldest_warning(self.items@.skip(i as int)),
            decreases self.items@.len() - i,
        {
            assert(self.items@.skip(i as int)[0] == self.items@[i as int]);
            if !matches!(self.items[i].1, Severity::Critical) {
                return i;
            }
            assert(self.items@.skip(i as int).drop_first() == self.items@.skip(i + 1));
            i = i + 1;
        }
        i
    }

    /// Take an alert for delivery. A worker that is gone delivers nothing any more; that
    /// is logged once.
    pub fn send(&mut self, worker_alive: bool, snapshot: &Snapshot, severity: Severity) -> (r: Sent)
        requires
            worker_alive && old(self).items@.len() >= ALERT_QUEUE_CAPACITY ==> old(self).dropped
                < u64::MAX,
        ensures
            final(self).shutdown == old(self).shutdown,
            !worker_alive ==> {
                &&& final(self).items@ == old(self).items@
                &&& final(self).dropped == old(self).dropped
                &&& final(self).death_logged
                &&& !r.notify
                &&& line_text(r.log) == if old(self).death_logged {
                    None
                } else {
                    Some(death_line())
                }
            },
            worker_alive ==> {
                let (items, shed) = after_send(old(self).items@, (*snapshot, severity));
                let n = old(self).dropped + 1;
                &&& final(self).items@ == items
                &&& final(self).dropped == if shed {
                    n
                } else {
                    old(self).dropped as int
                }
                &&& final(self).death_logged == old(self).death_logged
                &&& r.notify == (items != old(self).items@)
                &&& line_text(r.log) == if shed {
                    shed_log(old(self).items@, severity, n as nat)
                } else {
                    None
                }
            },
    {
        if !worker_alive {
            let log = if self.death_logged {
                None
            } else {
                Some(
                    "draug: webhook alert worker is not running; alerts will not be delivered".to_owned(),
                )
            };
            self.death_logged = true;
            return Sent { notify: false, log };
        }
        let ghost before = self.items@;
        let alert: Alert = (*snapshot, severity);
        if self.items.len() < ALERT_QUEUE_CAPACITY {
            self.items.push_back(alert);
            assert(self.items@.len() == before.len() + 1);
            return Sent { notify: true, log: None };
        }
        let n: u64 = self.dropped + 1;
        self.dropped = n;
        match severity {
            Severity::Warning => {
                let log = if is_power_of_two(n) {
                    Some(total_dropped("draug: webhook alert queue full, dropping Warning alert ", n))
                } else {
                    None
                };
                Sent { notify: false, log }
            },
            Severity::Critical => {
                let oldest: usize = self.find_warning();
                if oldest < self.items.len() {
                    self.items.remove(oldest);
                    self.items.push_back(alert);
                    proof {
                        lemma_oldest_warning(before);
                        let after = before.remove(oldest as int).push(alert);
                        assert(after[after.len() - 1].1 == Severity::Critical);
                        lemma_eviction_changes(before, alert);
                    }
                    let log = if is_power_of_two(n) {
                        Some(
                            total_dropped(
                                "draug: webhook alert queue full, evicted a Warning to admit a Critical ",
                                n,
                            ),
                        )
                    } else {
                        None
                    };
                    Sent { notify: true, log }
                } else {
                    let log = Some(
                        total_dropped(
                            "draug: webhook alert queue full of undelivered Critical alerts; dropping a Critical ",
                            n,
                        ),
                    );
                    Sent { notify: false, log }
                }
            },
        }
    }

    /// What the worker is to do next: deliver the oldest alert, wait for one, or exit
    /// once the end is announced and nothing is left.
    pub fn take(&mut self) -> (w: Work)
        ensures
            final(self).shutdown == old(self).shutdown,
            final(self).dropped == old(self).dropped,
            final(self).death_logged == old(self).death_logged,
            old(self).items@.len() > 0 ==> {
                &&& w == Work::Deliver(old(self).items@[0].0, old(self).items@[0].1)
                &&& final(self).items@ == old(self).items@.drop_first()
            },
            old(self).items@.len() == 0 ==> {
                &&& final(self).items@ == old(self).items@
                &&& w == if old(self).shutdown {
                    Work::Exit
                } else {
                    Work::Wait
                }
            },
    {
        match self.items.pop_front() {
            Some((snapshot, severity)) => Work::Deliver(snapshot, severity),
            None => if self.shutdown {
                Work::Exit
            } else {
                Work::Wait
            },
        }
    }

    /// Announce the end: the worker delivers what is left and exits.
    pub fn close(&mut self)
        ensures
            final(self).shutdown,
            final(self).items@ == old(self).items@,
            final(self).dropped == old(self).dropped,
            final(self).death_logged == old(self).death_logged,
    {
        self.shutdown = true;
    }
}

/// How many of the alerts are critical.
pub open spec fn criticals(items: Seq<Alert>) -> nat
    decreases items.len(),
{
    if items.len() == 0 {
        0
    } else {
        criticals(items.drop_last()) + if items.last().1 == Severity::Critical {
            1nat
        } else {
            0
        }
    }
}

proof fn lemma_criticals_remove(items: Seq<Alert>, i: int)
    requires
        0 <= i < items.len(),
        items[i].1 != Severity::Critical,
    ensures
        criticals(items.remove(i)) == criticals(items),
    decreases items.len(),
{
    if i == items.len() - 1 {
        assert(items.remove(i) == items.drop_last());
    } else {
        assert(items.remove(i).drop_last() == items.drop_last().remove(i));
        assert(items.remove(i).last() == items.last());
        lemma_criticals_remove(items.drop_last(), i);
    }
}

proof fn lemma_criticals_bound(items: Seq<Alert>)
    ensures
        criticals(items) <= items.len(),
        (forall|i: int| 0 <= i < items.len() ==> (#[trigger] items[i]).1 == Severity::Critical)
            <==> criticals(items) == items.len(),
    decreases items.len(),
{
    if items.len() > 0 {
        lemma_criticals_bound(items.drop_last());
        if forall|i: int| 0 <= i < items.len() ==> (#[trigger] items[i]).1 == Severity::Critical {
            assert forall|i: int| 0 <= i < items.drop_last().len() implies (
            #[trigger] items.drop_last()[i]).1 == Severity::Critical by {
                assert(items[i].1 == Severity::Critical);
            }
        }
        if criticals(items) == items.len() {
            assert forall|i: int| 0 <= i < items.len() implies (#[trigger] items[i]).1
                == Severity::Critical by {
                if i < items.len() - 1 {
                    assert(items.drop_last()[i].1 == Severity::Critical);
                }
            }
        }
    }
}

/// Making room for a critical alert changes what waits.
proof fn lemma_eviction_changes(items: Seq<Alert>, alert: Alert)
    requires
        alert.1 == Severity::Critical,
        oldest_warning(items) < items.len(),
    ensures
        items.remove(oldest_warning(items) as int).push(alert) != items,
{
    lemma_oldest_warning(items);
    let i = oldest_warning(items) as int;
    let after = items.remove(i).push(alert);
    lemma_criticals_remove(items, i);
    assert(after.drop_last() == items.remove(i));
    assert(criticals(after) == criticals(items) + 1);
}

/// The queue is bounded: a send never takes it beyond its capacity.
pub proof fn queue_is_bounded(items: Seq<Alert>, alert: Alert)
    requires
        items.len() <= ALERT_QUEUE_CAPACITY,
    ensures
        after_send(items, alert).0.len() <= ALERT_QUEUE_CAPACITY,
{
    lemma_oldest_warning(items);
}

/// A critical alert is taken whenever there is room or a warning to shed for it, and no
/// critical alert that waits is ever shed. Only a queue full of critical alerts turns
/// one away.
pub proof fn criticals_are_never_crowded_out(items: Seq<Alert>, alert: Alert)
    requires
        items.len() <= ALERT_QUEUE_CAPACITY,
    ensures
        ({
            let after = after_send(items, alert).0;
            let full_of_criticals = criticals(items) == ALERT_QUEUE_CAPACITY;
            &&& alert.1 == Severity::Critical && !full_of_criticals ==> after.last() == alert
                && criticals(after) == criticals(items) + 1
            &&& alert.1 == Severity::Warning || full_of_criticals ==> criticals(after)
                == criticals(items)
        }),
{
    lemma_oldest_warning(items);
    lemma_criticals_bound(items);
    let n = oldest_warning(items) as int;
    let after = after_send(items, alert).0;
    if items.len() < ALERT_QUEUE_CAPACITY {
        assert(after.drop_last() == items);
    } else if alert.1 == Severity::Critical && n < items.len() {
        lemma_criticals_remove(items, n);
        assert(after.drop_last() == items.remove(n));
        assert(items[n].1 != Severity::Critical);
    } else if alert.1 == Severity::Critical {
        assert(forall|i: int| 0 <= i < items.len() ==> (#[trigger] items[i]).1
            == Severity::Critical);
    }
}

/// A critical alert is never dropped silently: if it is not taken, that is logged.
pub proof fn criticals_are_never_dropped_silently(items: Seq<Alert>, alert: Alert, n: nat)
    requires
        alert.1 == Severity::Critical,
        after_send(items, alert).0 == items,
    ensures
        after_send(items, alert).1,
        shed_log(items, alert.1, n) is Some,
{
    lemma_oldest_warning(items);
    if items.len() < ALERT_QUEUE_CAPACITY {
        assert(items.push(alert).len() == items.len() + 1);
    } else if oldest_warning(items) < items.len() {
        lemma_eviction_changes(items, alert);
    }
}

/// Something that happens to the queue.
pub enum QueueStep {
    /// An alert is sent.
    Send(Alert),
    /// The worker takes the oldest.
    Take,
}

/// The queue and its history: what waits, what was delivered, what was sent, how many
/// alerts were shed, and how many critical ones were turned away.
pub struct QueueHistory {
    pub items: Seq<Alert>,
    pub delivered: Seq<Alert>,
    pub sent: Seq<Alert>,
    pub shed: nat,
    pub lost: nat,
}

/// The history after one more step.
pub open spec fn history_after(h: QueueHistory, step: QueueStep) -> QueueHistory {
    match step {
        QueueStep::Send(alert) => {
            let (items, shed) = after_send(h.items, alert);
            QueueHistory {
                items,
                sent: h.sent.push(alert),
                shed: h.shed + if shed {
                    1nat
                } else {
                    0
                },
                lost: h.lost + if shed && alert.1 == Severity::Critical && items == h.items {
                    1nat
                } else {
                    0
                },
                ..h
            }
        },
        QueueStep::Take => if h.items.len() == 0 {
            h
        } else {
            QueueHistory {
                items: h.items.drop_first(),
                delivered: h.delivered.push(h.items[0]),
                ..h
            }
        },
    }
}

/// The history of an empty queue after a run of steps.
pub open spec fn history(steps: Seq<QueueStep>) -> QueueHistory
    decreases steps.len(),
{
    if steps.len() == 0 {
        QueueHistory { items: seq![], delivered: seq![], sent: seq![], shed: 0, lost: 0 }
    } else {
        history_after(history(steps.drop_last()), steps.last())
    }
}

/// Whether `part` is `whole` with some elements left out, as `at` picks them.
pub open spec fn picks(part: Seq<Alert>, whole: Seq<Alert>, at: Seq<int>) -> bool {
    &&& at.len() == part.len()
    &&& forall|i: int| 0 <= i < at.len() ==> 0 <= #[trigger] at[i] < whole.len()
    &&& forall|i: int| 0 <= i < at.len() ==> part[i] == whole[#[trigger] at[i]]
    &&& forall|i: int, j: int| 0 <= i < j < at.len() ==> #[trigger] at[i] < #[trigger] at[j]
}

/// What was delivered, and behind it what waits.
pub open spec fn taken_in(h: QueueHistory) -> Seq<Alert> {
    h.delivered + h.items
}

proof fn lemma_picks_remove(part: Seq<Alert>, whole: Seq<Alert>, at: Seq<int>, i: int)
    requires
        picks(part, whole, at),
        0 <= i < part.len(),
    ensures
        picks(part.remove(i), whole, at.remove(i)),
{
    let p = part.remove(i);
    let a = at.remove(i);
    assert forall|k: int| 0 <= k < a.len() implies 0 <= #[trigger] a[k] < whole.len() && p[k]
        == whole[a[k]] by {
        if k < i {
            assert(a[k] == at[k]);
        } else {
            assert(a[k] == at[k + 1]);
        }
    }
    assert forall|k: int, l: int| 0 <= k < l < a.len() implies #[trigger] a[k] < #[trigger] a[l] by {
        let x = if k < i {
            k
        } else {
            k + 1
        };
        let y = if l < i {
            l
        } else {
            l + 1
        };
        assert(a[k] == at[x] && a[l] == at[y]);
    }
}

proof fn lemma_picks_push(part: Seq<Alert>, whole: Seq<Alert>, at: Seq<int>, alert: Alert)
    requires
        picks(part, whole, at),
    ensures
        picks(part, whole.push(alert), at),
        picks(part.push(alert), whole.push(alert), at.push(whole.len() as int)),
{
    let a = at.push(whole.len() as int);
    assert forall|k: int| 0 <= k < a.len() implies 0 <= #[trigger] a[k] < whole.push(alert).len()
        && part.push(alert)[k] == whole.push(alert)[a[k]] by {
        if k < at.len() {
            assert(a[k] == at[k]);
        }
    }
    assert forall|k: int, l: int| 0 <= k < l < a.len() implies #[trigger] a[k] < #[trigger] a[l] by {
        assert(a[k] == at[k]);
        if l < at.len() {
            assert(a[l] == at[l]);
        }
    }
}

/// Alerts are delivered in the order in which they were sent: at any time what was
/// delivered, and behind it what waits, is what was sent with some of it left out.
pub proof fn alerts_keep_their_order(steps: Seq<QueueStep>) -> (at: Seq<int>)
    ensures
        picks(taken_in(history(steps)), history(steps).sent, at),
    decreases steps.len(),
{
    if steps.len() == 0 {
        Seq::empty()
    } else {
        let before = history(steps.drop_last());
        let at = alerts_keep_their_order(steps.drop_last());
        let whole = before.sent;
        match steps.last() {
            QueueStep::Send(alert) => {
                let (items, shed) = after_send(before.items, alert);
                lemma_picks_push(taken_in(before), whole, at, alert);
                if items == before.items {
                    at
                } else if !shed {
                    assert(before.delivered + items == taken_in(before).push(alert));
                    at.push(whole.len() as int)
                } else {
                    lemma_oldest_warning(before.items);
                    let n = oldest_warning(before.items) as int;
                    let k = before.delivered.len() + n;
                    lemma_picks_remove(taken_in(before), whole, at, k);
                    lemma_picks_push(taken_in(before).remove(k), whole, at.remove(k), alert);
                    assert(before.delivered + items == taken_in(before).remove(k).push(alert));
                    at.remove(k).push(whole.len() as int)
                }
            },
            QueueStep::Take => {
                if before.items.len() > 0 {
                    assert(before.delivered.push(before.items[0]) + before.items.drop_first()
                        == taken_in(before));
                }
                at
            },
        }
    }
}

proof fn lemma_criticals_concat(a: Seq<Alert>, b: Seq<Alert>)
    ensures
        criticals(a + b) == criticals(a) + criticals(b),
    decreases b.len(),
{
    if b.len() == 0 {
        assert(a + b == a);
    } else {
        assert((a + b).drop_last() == a + b.drop_last());
        assert((a + b).last() == b.last());
        lemma_criticals_concat(a, b.drop_last());
    }
}

/// Nothing disappears: at any time every alert that was sent was delivered, waits, or was
/// counted as shed. Every critical one was delivered or waits, unless it was turned away
/// by a queue full of critical ones. The queue never outgrows its capacity.
pub proof fn alerts_are_accounted_for(steps: Seq<QueueStep>)
    ensures
        ({
            let h = history(steps);
            &&& h.items.len() <= ALERT_QUEUE_CAPACITY
            &&& h.sent.len() == h.delivered.len() + h.items.len() + h.shed
            &&& criticals(h.sent) == criticals(h.delivered) + criticals(h.items) + h.lost
        }),
    decreases steps.len(),
{
    if steps.len() > 0 {
        let before = history(steps.drop_last());
        let h = history(steps);
        alerts_are_accounted_for(steps.drop_last());
        match steps.last() {
            QueueStep::Send(alert) => {
                queue_is_bounded(before.items, alert);
                criticals_are_never_crowded_out(before.items, alert);
                lemma_oldest_warning(before.items);
                lemma_criticals_bound(before.items);
                assert(h.sent.drop_last() == before.sent);
                let n = oldest_warning(before.items);
                if before.items.len() < ALERT_QUEUE_CAPACITY {
                    assert(h.items.len() == before.items.len() + 1);
                } else if alert.1 == Severity::Critical && n < before.items.len() {
                    lemma_eviction_changes(before.items, alert);
                    assert(before.items[n as int].1 != Severity::Critical);
                } else if alert.1 == Severity::Critical {
                    assert forall|i: int| 0 <= i < before.items.len() implies (
                    #[trigger] before.items[i]).1 == Severity::Critical by {}
                }
            },
            QueueStep::Take => {
                if before.items.len() > 0 {
                    let first = seq![before.items[0]];
                    let rest = before.items.drop_first();
                    assert(first + rest == before.items);
                    lemma_criticals_concat(first, rest);
                    assert(before.delivered + first == h.delivered);
                    lemma_criticals_concat(before.delivered, first);
                }
            },
        }
    }
}

/// The end delivers everything: with as many turns of the worker as alerts wait, and
/// nothing sent in between, nothing is left and all that waited was delivered in order.
pub proof fn the_end_delivers_everything(h: QueueHistory)
    ensures
        drained_history(h).items == Seq::<Alert>::empty(),
        drained_history(h).delivered == h.delivered + h.items,
    decreases h.items.len(),
{
    if h.items.len() > 0 {
        let next = history_after(h, QueueStep::Take);
        the_end_delivers_everything(next);
        assert(next.delivered + next.items == h.delivered + h.items);
    } else {
        assert(h.delivered + h.items == h.delivered);
        assert(h.items == Seq::<Alert>::empty());
    }
}

/// The history after the worker has taken all that waits.
pub open spec fn drained_history(h: QueueHistory) -> QueueHistory
    decreases h.items.len(),
{
    if h.items.len() == 0 {
        h
    } else {
        drained_history(history_after(h, QueueStep::Take))
    }
}

/// A value in an alert.
#[derive(Debug)]
pub enum Field {
    /// Not known.
    Null,
    Text(String),
    Count(u64),
    Number(Binary64),
    /// A span, told in seconds.
    Seconds(Duration),
}

/// A value in an alert, with text as text.
pub enum FieldView {
    Null,
    Text(Seq<char>),
    Count(u64),
    Number(Binary64),
    Seconds(Duration),
}

impl View for Field {
    type V = FieldView;

    open spec fn view(&self) -> FieldView {
        match *self {
            Field::Null => FieldView::Null,
            Field::Text(s) => FieldView::Text(s@),
            Field::Count(n) => FieldView::Count(n),
            Field::Number(x) => FieldView::Number(x),
            Field::Seconds(d) => FieldView::Seconds(d),
        }
    }
}

/// The fields of an alert as texts and values.
pub open spec fn field_views(v: Seq<(&'static str, Field)>) -> Seq<(Seq<char>, FieldView)> {
    Seq::new(v.len(), |i: int| (v[i].0@, v[i].1@))
}

/// A text that may be missing.
pub open spec fn text_field(s: Option<String>) -> FieldView {
    match s {
        Some(s) => FieldView::Text(s@),
        None => FieldView::Null,
    }
}

/// A count that may be missing.
pub open spec fn count_field(n: Option<u64>) -> FieldView {
    match n {
        Some(n) => FieldView::Count(n),
        None => FieldView::Null,
    }
}

/// A number that may be missing.
pub open spec fn number_field(x: Option<Binary64>) -> FieldView {
    match x {
        Some(x) => FieldView::Number(x),
        None => FieldView::Null,
    }
}

/// A span that may be missing.
pub open spec fn seconds_field(d: Option<Duration>) -> FieldView {
    match d {
        Some(d) => FieldView::Seconds(d),
        None => FieldView::Null,
    }
}

/// The severity as it stands in an alert.
pub open spec fn severity_text(severity: Severity) -> Seq<char> {
    match severity {
        Severity::Warning => "warning"@,
        Severity::Critical => "critical"@,
    }
}

/// What an alert tells its receiver.
pub open spec fn payload_of(
    snapshot: Snapshot,
    severity: Severity,
    service: Option<String>,
    env: Option<String>,
) -> Seq<(Seq<char>, FieldView)> {
    seq![
        ("service"@, text_field(service)),
        ("env"@, text_field(env)),
        ("severity"@, FieldView::Text(severity_text(severity))),
        ("reason"@, FieldView::Text(reason_text(snapshot.reason))),
        ("restart_count"@, FieldView::Count(snapshot.restart_count)),
        ("mem_current"@, count_field(snapshot.mem_current)),
        ("mem_max"@, count_field(snapshot.mem_max)),
        ("mem_ratio"@, number_field(snapshot.mem_ratio)),
        ("cpu_quota_ratio"@, number_field(snapshot.cpu_quota_ratio)),
        ("threads"@, count_field(snapshot.threads)),
        ("open_fds"@, count_field(snapshot.open_fds)),
        ("heartbeat_age_secs"@, seconds_field(snapshot.heartbeat_age)),
    ]
}

fn text(s: &Option<String>) -> (f: Field)
    ensures
        f@ == text_field(*s),
{
    match s {
        Some(s) => Field::Text(s.clone()),
        None => Field::Null,
    }
}

fn count(n: Option<u64>) -> (f: Field)
    ensures
        f@ == count_field(n),
{
    match n {
        Some(n) => Field::Count(n),
        None => Field::Null,
    }
}

fn number(x: Option<Binary64>) -> (f: Field)
    ensures
        f@ == number_field(x),
{
    match x {
        Some(x) => Field::Number(x),
        None => Field::Null,
    }
}

fn seconds(d: Option<Duration>) -> (f: Field)
    ensures
        f@ == seconds_field(d),
{
    match d {
        Some(d) => Field::Seconds(d),
        None => Field::Null,
    }
}

/// What an alert tells its receiver: the names and values of its fields.
pub fn payload(
    snapshot: &Snapshot,
    severity: Severity,
    service: &Option<String>,
    env: &Option<String>,
) -> (p: Vec<(&'static str, Field)>)
    ensures
        field_views(p@) == payload_of(*snapshot, severity, *service, *env),
{
    let p: Vec<(&'static str, Field)> = vec![
        ("service", text(service)),
        ("env", text(env)),
        ("severity", Field::Text(severity.as_str().to_owned())),
        ("reason", Field::Text(reason_name(snapshot.reason).to_owned())),
        ("restart_count", Field::Count(snapshot.restart_count)),
        ("mem_current", count(snapshot.mem_current)),
        ("mem_max", count(snapshot.mem_max)),
        ("mem_ratio", number(snapshot.mem_ratio)),
        ("cpu_quota_ratio", number(snapshot.cpu_quota_ratio)),
        ("threads", count(snapshot.threads)),
        ("open_fds", count(snapshot.open_fds)),
        ("heartbeat_age_secs", seconds(snapshot.heartbeat_age)),
    ];
    assert(field_views(p@) == payload_of(*snapshot, severity, *service, *env));
    p
}

/// Only anomalies are alerted: what took SIGKILL or ended in a crash loop is critical, a
/// restart for memory or pressure is a warning, and every other one is none.
pub proof fn severity_goes_by_the_anomaly(
    reason: RestartReason,
    escalated: bool,
    crash_loop: bool,
)
    ensures
        (escalated || crash_loop) <==> severity_of(reason, escalated, crash_loop) == Some(
            Severity::Critical,
        ),
        severity_of(reason, escalated, crash_loop) == Some(Severity::Warning) <==> !escalated
            && !crash_loop && (reason == RestartReason::Memory || reason == RestartReason::Psi),
        severity_of(reason, escalated, crash_loop) is None <==> !escalated && !crash_loop && (reason
            == RestartReason::Periodic || reason == RestartReason::HeartbeatStale || reason
            == RestartReason::Crash || reason == RestartReason::Shutdown),
{
}

/// A queue with room takes every alert last and sheds none. A full one, of 128 alerts, sheds
/// a warning that is sent.
pub proof fn room_takes_every_alert(items: Seq<Alert>, alert: Alert)
    ensures
        items.len() < 128 ==> after_send(items, alert) == (items.push(alert), false),
        (items.len() >= 128 && alert.1 == Severity::Warning) ==> after_send(items, alert) == (
            items,
            true,
        ),
{
}

/// For a critical alert a full queue sheds its oldest warning, the `i`th of what waits, and
/// nothing else; the others keep their places, and the alert comes last. Without a warning
/// to shed it is turned away.
pub proof fn full_queue_sheds_its_oldest_warning(items: Seq<Alert>, alert: Alert, i: int)
    requires
        items.len() >= 128,
        alert.1 == Severity::Critical,
        0 <= i <= items.len(),
        forall|j: int| 0 <= j < i ==> (#[trigger] items[j]).1 == Severity::Critical,
        i < items.len() ==> items[i].1 == Severity::Warning,
    ensures
        i < items.len() ==> after_send(items, alert) == (
            items.take(i) + items.skip(i + 1) + seq![alert],
            true,
        ),
        i == items.len() ==> after_send(items, alert) == (items, true),
{
    lemma_oldest_warning(items);
    let n = oldest_warning(items) as int;
    if n < i {
        assert(items[n].1 == Severity::Critical);
    }
    assert(n == i);
    if i < items.len() {
        assert(items.remove(i).push(alert) == items.take(i) + items.skip(i + 1) + seq![alert]);
    }
}

/// Shedding a warning is logged when the count is a power of two and only then; turning a
/// critical alert away is always logged. The line ends with the count.
pub proof fn shedding_is_logged_sparingly(items: Seq<Alert>, severity: Severity, n: nat)
    ensures
        severity == Severity::Warning ==> (shed_log(items, severity, n) is Some <==> exists|k: nat|
            n == #[trigger] pow2(k)),
        (severity == Severity::Critical && forall|j: int|
            0 <= j < items.len() ==> (#[trigger] items[j]).1 == Severity::Critical) ==> shed_log(
            items,
            severity,
            n,
        ) is Some,
        shed_log(items, severity, n) matches Some(line) ==> exists|head: Seq<char>|
            line == #[trigger] (head + ("(total dropped: "@ + decimal(n) + ")"@)),
{
    lemma_oldest_warning(items);
    if severity == Severity::Critical && forall|j: int|
        0 <= j < items.len() ==> (#[trigger] items[j]).1 == Severity::Critical {
        if oldest_warning(items) < items.len() {
            assert(items[oldest_warning(items) as int].1 == Severity::Critical);
        }
    }
}

/// An alert tells its receiver what the snapshot holds, each value under its own name and
/// nothing else; what is not known is null.
pub proof fn alert_tells_the_snapshot(
    snapshot: Snapshot,
    severity: Severity,
    service: Option<String>,
    env: Option<String>,
    n: u64,
    x: Binary64,
    d: Duration,
    text: String,
)
    ensures
        ({
            let p = payload_of(snapshot, severity, service, env);
            &&& p.len() == 12
            &&& p.contains(("restart_count"@, FieldView::Count(snapshot.restart_count)))
            &&& p.contains(
                (
                    "severity"@,
                    FieldView::Text(
                        if severity == Severity::Critical {
                            "critical"@
                        } else {
                            "warning"@
                        },
                    ),
                ),
            )
            &&& snapshot.reason == RestartReason::Memory ==> p.contains(
                ("reason"@, FieldView::Text("Memory"@)),
            )
            &&& snapshot.reason == RestartReason::Psi ==> p.contains(
                ("reason"@, FieldView::Text("Psi"@)),
            )
            &&& snapshot.reason == RestartReason::Periodic ==> p.contains(
                ("reason"@, FieldView::Text("Periodic"@)),
            )
            &&& snapshot.reason == RestartReason::HeartbeatStale ==> p.contains(
                ("reason"@, FieldView::Text("HeartbeatStale"@)),
            )
            &&& snapshot.reason == RestartReason::Crash ==> p.contains(
                ("reason"@, FieldView::Text("Crash"@)),
            )
            &&& snapshot.reason == RestartReason::Shutdown ==> p.contains(
                ("reason"@, FieldView::Text("Shutdown"@)),
            )
            &&& service == Some(text) ==> p.contains(("service"@, FieldView::Text(text@)))
            &&& service is None ==> p.contains(("service"@, FieldView::Null))
            &&& env == Some(text) ==> p.contains(("env"@, FieldView::Text(text@)))
            &&& env is None ==> p.contains(("env"@, FieldView::Null))
            &&& snapshot.mem_current == Some(n) ==> p.contains(
                ("mem_current"@, FieldView::Count(n)),
            )
            &&& snapshot.mem_current is None ==> p.contains(("mem_current"@, FieldView::Null))
            &&& snapshot.mem_max == Some(n) ==> p.contains(("mem_max"@, FieldView::Count(n)))
            &&& snapshot.mem_max is None ==> p.contains(("mem_max"@, FieldView::Null))
            &&& snapshot.mem_ratio == Some(x) ==> p.contains(("mem_ratio"@, FieldView::Number(x)))
            &&& snapshot.mem_ratio is None ==> p.contains(("mem_ratio"@, FieldView::Null))
            &&& snapshot.cpu_quota_ratio == Some(x) ==> p.contains(
                ("cpu_quota_ratio"@, FieldView::Number(x)),
            )
            &&& snapshot.cpu_quota_ratio is None ==> p.contains(
                ("cpu_quota_ratio"@, FieldView::Null),
            )
            &&& snapshot.threads == Some(n) ==> p.contains(("threads"@, FieldView::Count(n)))
            &&& snapshot.threads is None ==> p.contains(("threads"@, FieldView::Null))
            &&& snapshot.open_fds == Some(n) ==> p.contains(("open_fds"@, FieldView::Count(n)))
            &&& snapshot.open_fds is None ==> p.contains(("open_fds"@, FieldView::Null))
            &&& snapshot.heartbeat_age == Some(d) ==> p.contains(
                ("heartbeat_age_secs"@, FieldView::Seconds(d)),
            )
            &&& snapshot.heartbeat_age is None ==> p.contains(
                ("heartbeat_age_secs"@, FieldView::Null),
            )
        }),
{
    let p = payload_of(snapshot, severity, service, env);
    assert(p[0].0 == "service"@ && p.contains(p[0]));
    assert(p[1].0 == "env"@ && p.contains(p[1]));
    assert(p[2].0 == "severity"@ && p.contains(p[2]));
    assert(p[3].0 == "reason"@ && p.contains(p[3]));
    assert(p[4].0 == "restart_count"@ && p.contains(p[4]));
    assert(p[5].0 == "mem_current"@ && p.contains(p[5]));
    assert(p[6].0 == "mem_max"@ && p.contains(p[6]));
    assert(p[7].0 == "mem_ratio"@ && p.contains(p[7]));
    assert(p[8].0 == "cpu_quota_ratio"@ && p.contains(p[8]));
    assert(p[9].0 == "threads"@ && p.contains(p[9]));
    assert(p[10].0 == "open_fds"@ && p.contains(p[10]));
    assert(p[11].0 == "heartbeat_age_secs"@ && p.contains(p[11]));
}

/// How much waits for delivery, and how long one delivery may take.
pub proof fn delivery_is_bounded()
    ensures
        ALERT_QUEUE_CAPACITY == 128,
        DELIVERY_TIMEOUT_SECS == 5,
{
}

} // verus!
