//! Trigger evaluation: given the latest resource samples and the limits, whether
//! to restart the target and why.
//!
//! When several triggers fire at once the precedence is
//! `HeartbeatStale > Psi > Memory > Periodic`. A startup grace suppresses all
//! but the periodic trigger in the initial window.
//!
//! Crashes and drains are not part of this core: a target that exited by itself
//! never gets here, and only a running target is evaluated.

use crate::binary64::Binary64;
use crate::time::Duration;
use vstd::prelude::*;

verus! {

/// Why the supervisor is restarting, or gracefully stopping, the target.
#[derive(Clone, Copy, PartialEq, Eq, Debug, Structural)]
pub enum RestartReason {
    Periodic,
    Memory,
    Psi,
    HeartbeatStale,
    Crash,
    /// A graceful stop asked for from outside. Not an anomaly.
    Shutdown,
}

/// Outcome of evaluating the triggers.
#[derive(Clone, Copy, PartialEq, Eq, Debug, Structural)]
pub enum Decision {
    /// Leave the target alone.
    Keep,
    Restart(RestartReason),
}

/// Heartbeat status as seen by the decision core.
#[derive(Clone, Copy, PartialEq, Eq, Debug, Structural)]
pub enum HeartbeatInput {
    /// Heartbeat checking is off.
    Disabled,
    /// The heartbeat file does not exist. Stale once the startup grace is over.
    Missing,
    /// The file exists but its age cannot be told. That is no signal: a target
    /// that cannot be assessed is never restarted for it.
    Unreadable,
    /// The file was last touched this long ago.
    Age(Duration),
}

/// The part of the configuration that the decision needs.
#[derive(Clone, Copy, PartialEq, Eq, Debug, Structural)]
pub struct DecisionLimits {
    pub restart_interval: Option<Duration>,
    pub mem_threshold: Option<Binary64>,
    pub heartbeat_max_age: Duration,
    pub startup_grace: Duration,
}

/// What was sampled for one evaluation.
#[derive(Clone, Copy, PartialEq, Eq, Debug, Structural)]
pub struct Inputs {
    /// Time since the current target was spawned.
    pub elapsed: Duration,
    /// Memory usage relative to the limit, or `None` without a limit. A ratio
    /// that is not a number never triggers.
    pub mem_ratio: Option<Binary64>,
    pub psi_triggered: bool,
    pub heartbeat: HeartbeatInput,
}

/// The startup window is over.
pub open spec fn past_grace(i: Inputs, l: DecisionLimits) -> bool {
    i.elapsed@ >= l.startup_grace@
}

/// The heartbeat is missing or older than allowed.
pub open spec fn heartbeat_stale(i: Inputs, l: DecisionLimits) -> bool {
    match i.heartbeat {
        HeartbeatInput::Missing => true,
        HeartbeatInput::Age(age) => age@ > l.heartbeat_max_age@,
        HeartbeatInput::Disabled | HeartbeatInput::Unreadable => false,
    }
}

/// Memory usage has reached its threshold.
pub open spec fn memory_over(i: Inputs, l: DecisionLimits) -> bool {
    match (i.mem_ratio, l.mem_threshold) {
        (Some(ratio), Some(threshold)) => ratio.at_least(threshold),
        _ => false,
    }
}

/// The periodic deadline has been reached.
pub open spec fn interval_over(i: Inputs, l: DecisionLimits) -> bool {
    match l.restart_interval {
        Some(interval) => i.elapsed@ >= interval@,
        None => false,
    }
}

/// Whether the trigger behind `reason` fires.
pub open spec fn fires(reason: RestartReason, i: Inputs, l: DecisionLimits) -> bool {
    match reason {
        RestartReason::HeartbeatStale => past_grace(i, l) && heartbeat_stale(i, l),
        RestartReason::Psi => past_grace(i, l) && i.psi_triggered,
        RestartReason::Memory => past_grace(i, l) && memory_over(i, l),
        RestartReason::Periodic => interval_over(i, l),
        RestartReason::Crash | RestartReason::Shutdown => false,
    }
}

/// How a reason ranks among those that fire together; the highest wins.
pub open spec fn rank(reason: RestartReason) -> int {
    match reason {
        RestartReason::HeartbeatStale => 4,
        RestartReason::Psi => 3,
        RestartReason::Memory => 2,
        RestartReason::Periodic => 1,
        RestartReason::Crash | RestartReason::Shutdown => 0,
    }
}

/// `d` is the reason of highest rank among those that fire, or `Keep` if none
/// does.
pub open spec fn is_decision(d: Decision, i: Inputs, l: DecisionLimits) -> bool {
    match d {
        Decision::Keep => forall|r: RestartReason| !#[trigger] fires(r, i, l),
        Decision::Restart(reason) => {
            &&& fires(reason, i, l)
            &&& forall|r: RestartReason| #[trigger] fires(r, i, l) ==> rank(r) <= rank(reason)
        },
    }
}

/// The decision for the given samples and limits.
pub open spec fn decided(i: Inputs, l: DecisionLimits) -> Decision {
    if fires(RestartReason::HeartbeatStale, i, l) {
        Decision::Restart(RestartReason::HeartbeatStale)
    } else if fires(RestartReason::Psi, i, l) {
        Decision::Restart(RestartReason::Psi)
    } else if fires(RestartReason::Memory, i, l) {
        Decision::Restart(RestartReason::Memory)
    } else if fires(RestartReason::Periodic, i, l) {
        Decision::Restart(RestartReason::Periodic)
    } else {
        Decision::Keep
    }
}

/// Evaluate the triggers.
pub fn evaluate(i: &Inputs, l: &DecisionLimits) -> (d: Decision)
    ensures
        d == decided(*i, *l),
        is_decision(d, *i, *l),
{
    if i.elapsed.at_least(l.startup_grace) {
        match i.heartbeat {
            HeartbeatInput::Missing => {
                return Decision::Restart(RestartReason::HeartbeatStale);
            },
            HeartbeatInput::Age(age) => {
                if age.exceeds(l.heartbeat_max_age) {
                    return Decision::Restart(RestartReason::HeartbeatStale);
                }
            },
            HeartbeatInput::Disabled | HeartbeatInput::Unreadable => {},
        }
        if i.psi_triggered {
            return Decision::Restart(RestartReason::Psi);
        }
        if let (Some(ratio), Some(threshold)) = (i.mem_ratio, l.mem_threshold) {
            if ratio.ge(threshold) {
                return Decision::Restart(RestartReason::Memory);
            }
        }
    }
    if let Some(interval) = l.restart_interval {
        if i.elapsed.at_least(interval) {
            return Decision::Restart(RestartReason::Periodic);
        }
    }
    Decision::Keep
}

/// At most one decision has the highest rank: the precedence leaves no choice.
pub proof fn decision_is_unique(a: Decision, b: Decision, i: Inputs, l: DecisionLimits)
    requires
        is_decision(a, i, l),
        is_decision(b, i, l),
    ensures
        a == b,
{
    if let Decision::Restart(r) = a {
        assert(fires(r, i, l));
        if let Decision::Restart(s) = b {
            assert(fires(s, i, l));
        }
    }
    if let Decision::Restart(s) = b {
        assert(fires(s, i, l));
    }
}

/// During the startup grace only the periodic trigger can restart the target.
pub proof fn grace_leaves_only_periodic(i: Inputs, l: DecisionLimits)
    requires
        !past_grace(i, l),
    ensures
        decided(i, l) == if interval_over(i, l) {
            Decision::Restart(RestartReason::Periodic)
        } else {
            Decision::Keep
        },
{
}

/// A heartbeat that cannot be read decides exactly as one that is switched off.
pub proof fn unreadable_heartbeat_is_no_signal(i: Inputs, l: DecisionLimits)
    ensures
        decided((Inputs { heartbeat: HeartbeatInput::Unreadable, ..i }), l) == decided(
            (Inputs { heartbeat: HeartbeatInput::Disabled, ..i }),
            l,
        ),
        decided((Inputs { heartbeat: HeartbeatInput::Unreadable, ..i }), l) != Decision::Restart(
            RestartReason::HeartbeatStale,
        ),
{
}

/// Each trigger can be switched off on its own: without its limit (or, for
/// pressure, its sample) it is never the reason.
pub proof fn disabled_triggers_never_fire(i: Inputs, l: DecisionLimits)
    ensures
        l.restart_interval is None ==> decided(i, l) != Decision::Restart(RestartReason::Periodic),
        l.mem_threshold is None ==> decided(i, l) != Decision::Restart(RestartReason::Memory),
        i.mem_ratio is None ==> decided(i, l) != Decision::Restart(RestartReason::Memory),
        !i.psi_triggered ==> decided(i, l) != Decision::Restart(RestartReason::Psi),
        i.heartbeat == HeartbeatInput::Disabled ==> decided(i, l) != Decision::Restart(
            RestartReason::HeartbeatStale,
        ),
{
}

/// A memory ratio that is not a number decides exactly as no ratio at all.
pub proof fn nan_ratio_never_triggers(i: Inputs, l: DecisionLimits, ratio: Binary64)
    requires
        ratio.nan(),
    ensures
        decided((Inputs { mem_ratio: Some(ratio), ..i }), l) == decided(
            (Inputs { mem_ratio: None, ..i }),
            l,
        ),
{
}

/// A periodic restart that is due stays due, however late the tick that finds it: from the
/// interval on the target is never kept, and it is restarted for that reason unless another
/// trigger comes first. Before the interval it is never the reason.
pub proof fn periodic_restart_stays_due(i: Inputs, l: DecisionLimits)
    ensures
        l.restart_interval matches Some(d) ==> {
            &&& i.elapsed@ >= d@ ==> decided(i, l) != Decision::Keep
            &&& i.elapsed@ < d@ ==> decided(i, l) != Decision::Restart(RestartReason::Periodic)
            &&& (i.elapsed@ >= d@ && i.elapsed@ < l.startup_grace@) ==> decided(i, l)
                == Decision::Restart(RestartReason::Periodic)
            &&& (i.elapsed@ >= d@ && !i.psi_triggered && (i.heartbeat is Disabled || i.heartbeat
                is Unreadable || (i.heartbeat matches HeartbeatInput::Age(a) && a@
                <= l.heartbeat_max_age@)) && (i.mem_ratio is None || l.mem_threshold is None || (
            i.mem_ratio matches Some(ratio) && l.mem_threshold matches Some(threshold) && (
            ratio.nan() || threshold.nan() || ratio.scaled() < threshold.scaled())))) ==> decided(
                i,
                l,
            ) == Decision::Restart(RestartReason::Periodic)
        },
        l.restart_interval is None ==> decided(i, l) != Decision::Restart(RestartReason::Periodic),
{
}

/// A heartbeat that is missing, or older than allowed, restarts the target once the startup
/// grace is over, whatever else the samples say. One within the allowed age never does, and
/// before the end of the grace none does.
pub proof fn stale_heartbeat_comes_first(i: Inputs, l: DecisionLimits)
    ensures
        (i.elapsed@ >= l.startup_grace@ && i.heartbeat is Missing) ==> decided(i, l)
            == Decision::Restart(RestartReason::HeartbeatStale),
        i.heartbeat matches HeartbeatInput::Age(age) ==> {
            &&& (i.elapsed@ >= l.startup_grace@ && age@ > l.heartbeat_max_age@) ==> decided(i, l)
                == Decision::Restart(RestartReason::HeartbeatStale)
            &&& age@ <= l.heartbeat_max_age@ ==> decided(i, l) != Decision::Restart(
                RestartReason::HeartbeatStale,
            )
        },
        i.elapsed@ < l.startup_grace@ ==> decided(i, l) != Decision::Restart(
            RestartReason::HeartbeatStale,
        ),
{
}

/// Pressure restarts the target once the startup grace is over, unless its heartbeat is
/// stale. Without pressure, or before, it is never the reason.
pub proof fn pressure_comes_before_memory(i: Inputs, l: DecisionLimits)
    ensures
        (i.psi_triggered && i.elapsed@ >= l.startup_grace@) ==> decided(i, l) == Decision::Restart(
            RestartReason::Psi,
        ) || decided(i, l) == Decision::Restart(RestartReason::HeartbeatStale),
        (i.psi_triggered && i.elapsed@ >= l.startup_grace@ && (i.heartbeat is Disabled
            || i.heartbeat is Unreadable || (i.heartbeat matches HeartbeatInput::Age(a) && a@
            <= l.heartbeat_max_age@))) ==> decided(i, l) == Decision::Restart(RestartReason::Psi),
        (!i.psi_triggered || i.elapsed@ < l.startup_grace@) ==> decided(i, l) != Decision::Restart(
            RestartReason::Psi,
        ),
{
}

/// Memory usage at or above its threshold restarts the target once the startup grace is
/// over, unless pressure or the heartbeat does. Below the threshold, or before the end of
/// the grace, it is never the reason.
pub proof fn memory_restarts_from_its_threshold_on(
    i: Inputs,
    l: DecisionLimits,
    ratio: Binary64,
    threshold: Binary64,
)
    requires
        i.mem_ratio == Some(ratio),
        l.mem_threshold == Some(threshold),
        !ratio.nan(),
        !threshold.nan(),
    ensures
        (ratio.scaled() >= threshold.scaled() && i.elapsed@ >= l.startup_grace@) ==> decided(i, l)
            == Decision::Restart(RestartReason::Memory) || decided(i, l) == Decision::Restart(
            RestartReason::Psi,
        ) || decided(i, l) == Decision::Restart(RestartReason::HeartbeatStale),
        (ratio.scaled() >= threshold.scaled() && i.elapsed@ >= l.startup_grace@ && !i.psi_triggered
            && (i.heartbeat is Disabled || i.heartbeat is Unreadable || (
        i.heartbeat matches HeartbeatInput::Age(a) && a@ <= l.heartbeat_max_age@))) ==> decided(
            i,
            l,
        ) == Decision::Restart(RestartReason::Memory),
        (ratio.scaled() < threshold.scaled() || i.elapsed@ < l.startup_grace@) ==> decided(i, l)
            != Decision::Restart(RestartReason::Memory),
{
}

/// Waiting never undoes a restart: with all else equal, a target that is to be restarted
/// now is still to be restarted later, for the same reason or one that comes before it.
pub proof fn waiting_never_undoes_a_restart(i: Inputs, l: DecisionLimits, later: Duration)
    requires
        later@ >= i.elapsed@,
    ensures
        decided(i, l) matches Decision::Restart(reason) ==> {
            &&& decided((Inputs { elapsed: later, ..i }), l) is Restart
            &&& reason != RestartReason::Periodic ==> decided((Inputs { elapsed: later, ..i }), l)
                == Decision::Restart(reason)
        },
{
}

/// A target that nothing is wrong with is kept: before the interval, with a heartbeat that
/// is fresh or not asked for, no pressure, and memory usage below its threshold.
pub proof fn healthy_target_is_kept(i: Inputs, l: DecisionLimits)
    requires
        l.restart_interval matches Some(d) ==> i.elapsed@ < d@,
        !i.psi_triggered,
        !(i.heartbeat is Missing),
        i.heartbeat matches HeartbeatInput::Age(a) ==> a@ <= l.heartbeat_max_age@,
        i.mem_ratio matches Some(ratio) ==> l.mem_threshold matches Some(threshold)
            ==> ratio.scaled() < threshold.scaled(),
    ensures
        decided(i, l) == Decision::Keep,
{
}

/// The samples alone never make a crash or a shutdown of it.
pub proof fn decision_is_about_triggers(i: Inputs, l: DecisionLimits)
    ensures
        decided(i, l) != Decision::Restart(RestartReason::Crash),
        decided(i, l) != Decision::Restart(RestartReason::Shutdown),
        i.elapsed@ < l.startup_grace@ ==> decided(i, l) == Decision::Keep || decided(i, l)
            == Decision::Restart(RestartReason::Periodic),
{
}

} // verus!
