//! The lifecycle of the target process: how it is to be launched, and what to make of
//! the answers of the operating system when it is signalled and waited for.

use crate::path::UnixPath;
use crate::procfs::strings;
use crate::text::{from_utf8_lossy, lossy_text};
use vstd::prelude::*;

verus! {

/// The error number for a process that does not exist.
pub const ESRCH: i32 = 3;

/// The error number for having no child to wait for.
pub const ECHILD: i32 = 10;

/// How the target is to be launched.
#[derive(Debug)]
pub struct LaunchPlan {
    pub program: String,
    pub args: Vec<String>,
    /// Variables to add to the environment.
    pub env: Vec<(String, String)>,
}

/// The variables as texts.
pub open spec fn variables(v: Seq<(String, String)>) -> Seq<(Seq<char>, Seq<char>)> {
    Seq::new(v.len(), |i: int| (v[i].0@, v[i].1@))
}

/// The variables that tell the target where to leave its heartbeat.
pub open spec fn heartbeat_env(heartbeat_file: Option<UnixPath>) -> Seq<(Seq<char>, Seq<char>)> {
    match heartbeat_file {
        Some(p) => seq![("DRAUG_HEARTBEAT_FILE"@, lossy_text(p.bytes@))],
        None => seq![],
    }
}

/// The variables that tell the target where to leave its heartbeat.
pub fn target_env(heartbeat_file: &Option<UnixPath>) -> (env: Vec<(String, String)>)
    ensures
        variables(env@) == heartbeat_env(*heartbeat_file),
{
    let mut env: Vec<(String, String)> = Vec::new();
    if let Some(p) = heartbeat_file {
        env.push(("DRAUG_HEARTBEAT_FILE".to_owned(), from_utf8_lossy(p.bytes.as_slice())));
    }
    assert(variables(env@) == heartbeat_env(*heartbeat_file));
    env
}

/// How to launch the target with `extra_env` added to its environment, or `None` if there
/// is no command to launch.
pub fn spawn(target: &Vec<String>, extra_env: &Vec<(String, String)>) -> (r: Option<LaunchPlan>)
    ensures
        r is Some <==> target@.len() > 0,
        r matches Some(plan) ==> {
            &&& plan.program@ == target@[0]@
            &&& strings(plan.args@) == strings(target@).skip(1)
            &&& variables(plan.env@) == variables(extra_env@)
        },
{
    if target.len() == 0 {
        return None;
    }
    let mut args: Vec<String> = Vec::new();
    let mut i: usize = 1;
    while i < target.len()
        invariant
            1 <= i <= target@.len(),
            strings(args@) == strings(target@).subrange(1, i as int),
        decreases target@.len() - i,
    {
        let ghost before = strings(args@);
        let arg = target[i].clone();
        args.push(arg);
        assert(strings(args@) == before.push(arg@));
        i = i + 1;
    }
    assert(strings(target@).subrange(1, i as int) == strings(target@).skip(1));
    let mut env: Vec<(String, String)> = Vec::new();
    let mut j: usize = 0;
    while j < extra_env.len()
        invariant
            j <= extra_env@.len(),
            variables(env@) == variables(extra_env@).take(j as int),
        decreases extra_env@.len() - j,
    {
        let ghost before = variables(env@);
        let name = extra_env[j].0.clone();
        let value = extra_env[j].1.clone();
        env.push((name, value));
        assert(variables(env@) == before.push((name@, value@)));
        j = j + 1;
    }
    Some(LaunchPlan { program: target[0].clone(), args, env })
}

/// What signalling the target's process group comes to, given the error number of the
/// attempt: a group that is gone already needs no signal.
pub fn signal_group(errno: Option<i32>) -> (r: Result<(), i32>)
    ensures
        r == match errno {
            Some(e) => if e == ESRCH {
                Ok(())
            } else {
                Err(e)
            },
            None => Ok(()),
        },
        r is Ok <==> errno is None || errno == Some(3i32),
        r matches Err(e) ==> errno == Some(e),
{
    match errno {
        Some(e) => if e == ESRCH {
            Ok(())
        } else {
            Err(e)
        },
        None => Ok(()),
    }
}

/// One answer to waiting for the target.
#[derive(Clone, Copy, PartialEq, Eq, Debug, Structural)]
pub enum WaitReport {
    /// It exited with this code.
    Exited(i32),
    /// This signal ended it.
    Signaled(i32),
    /// It changed state without ending.
    Changed,
    /// Waiting failed with this error number.
    Failed(i32),
}

/// What to do after an answer to waiting.
#[derive(Clone, Copy, PartialEq, Eq, Debug, Structural)]
pub enum WaitNext {
    /// The target ended with this wait status.
    Done(i32),
    /// Wait again.
    Again,
    /// Waiting failed with this error number.
    Fail(i32),
}

/// The wait status of a process that exited with `code`: the low byte of the code in
/// the second byte.
pub fn exit_status_from_code(code: i32) -> (status: i32)
    ensures
        status == (code & 0xff) * 256,
        status % 128 == 0,
        0 <= status <= 0xff00,
{
    let low: i32 = code & 0xff;
    assert(0 <= low <= 0xff) by (bit_vector)
        requires
            low == code & 0xff,
    ;
    low * 256
}

/// The wait status of a process that a signal ended: the signal in the low bits.
pub fn exit_status_signaled(sig: i32) -> (status: i32)
    ensures
        status == sig,
{
    sig
}

/// What to do after an answer to waiting. A target that was reaped already counts as one
/// that exited with success.
pub fn wait_blocking(report: WaitReport) -> (next: WaitNext)
    ensures
        next == match report {
            WaitReport::Exited(code) => WaitNext::Done(((code & 0xff) * 256) as i32),
            WaitReport::Signaled(sig) => WaitNext::Done(sig),
            WaitReport::Changed => WaitNext::Again,
            WaitReport::Failed(e) => if e == ECHILD {
                WaitNext::Done(0)
            } else {
                WaitNext::Fail(e)
            },
        },
        report == WaitReport::Failed(10) ==> next == WaitNext::Done(0),
        report matches WaitReport::Failed(e) ==> (e != 10 ==> next == WaitNext::Fail(e)),
{
    match report {
        WaitReport::Exited(code) => WaitNext::Done(exit_status_from_code(code)),
        WaitReport::Signaled(sig) => WaitNext::Done(exit_status_signaled(sig)),
        WaitReport::Changed => WaitNext::Again,
        WaitReport::Failed(e) => if e == ECHILD {
            proof {
                assert(0i32 & 0xff == 0) by (bit_vector);
            }
            WaitNext::Done(exit_status_from_code(0))
        } else {
            WaitNext::Fail(e)
        },
    }
}

} // verus!
