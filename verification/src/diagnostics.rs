//! Diagnostics snapshot for alerts: the evidence that helps when something goes
//! wrong, captured while the target is still alive.

use crate::binary64::Binary64;
use crate::cgroup::answered;
use crate::decision::RestartReason;
use crate::path::UnixPath;
use crate::text::{
    as_nat, chars_of, decimal, decimal_reads_back, lines, lines_of, number_of, parse_u64,
    push_decimal, push_text, same_chars, texts, trim, trim_of,
};
use crate::time::Duration;
use vstd::prelude::*;
use vstd::slice::slice_subrange;
use vstd::utf8::encode_utf8;

verus! {

/// Evidence captured at a failure or restart.
#[derive(Clone, Copy, PartialEq, Eq, Debug, Structural)]
pub struct Snapshot {
    pub reason: RestartReason,
    /// Restarts over the lifetime of the supervisor. A restart that the event is about
    /// to cause is counted already; giving up on a crash loop causes none.
    pub restart_count: u64,
    pub mem_current: Option<u64>,
    pub mem_max: Option<u64>,
    pub mem_ratio: Option<Binary64>,
    /// The configured CPU ceiling, not live usage.
    pub cpu_quota_ratio: Option<Binary64>,
    pub threads: Option<u64>,
    pub open_fds: Option<u64>,
    pub heartbeat_age: Option<Duration>,
}

/// The thread count that the lines of a process status state: that of the first
/// `Threads:` line.
pub open spec fn threads_of(lines: Seq<Seq<char>>) -> Option<nat>
    decreases lines.len(),
{
    let key = "Threads:"@;
    if lines.len() == 0 {
        None
    } else if lines[0].len() >= key.len() && lines[0].take(key.len() as int) == key {
        number_of(trim_of(lines[0].skip(key.len() as int)), u64::MAX as nat)
    } else {
        threads_of(lines.drop_first())
    }
}

/// Parse the thread count out of a process status.
pub fn parse_threads(status: &str) -> (r: Option<u64>)
    ensures
        as_nat(r) == threads_of(lines_of(status@)),
{
    let chars = chars_of(status);
    let all = lines(chars.as_slice());
    let key = chars_of("Threads:");
    let mut i: usize = 0;
    assert(texts(all@).skip(0) == texts(all@));
    while i < all.len()
        invariant
            i <= all@.len(),
            key@ == "Threads:"@,
            texts(all@) == lines_of(status@),
            threads_of(texts(all@)) == threads_of(texts(all@).skip(i as int)),
        decreases all@.len() - i,
    {
        let line = all[i];
        let ghost rest = texts(all@).skip(i as int);
        assert(rest[0] == line@);
        assert(rest.drop_first() == texts(all@).skip(i + 1));
        if line.len() >= key.len() {
            let head = slice_subrange(line, 0, key.len());
            assert(head@ == line@.take(key@.len() as int));
            if same_chars(head, key.as_slice()) {
                let value = slice_subrange(line, key.len(), line.len());
                assert(value@ == line@.skip(key@.len() as int));
                return parse_u64(trim(value));
            }
        }
        i = i + 1;
    }
    None
}

/// The path of a file that `/proc` keeps for a process.
pub open spec fn process_file(pid: u32, name: Seq<char>) -> Seq<u8> {
    encode_utf8("/proc/"@ + decimal(pid as nat) + name)
}

fn process_path(pid: u32, name: &str) -> (p: UnixPath)
    ensures
        p.bytes@ == process_file(pid, name@),
{
    let mut text = "/proc/".to_owned();
    push_decimal(&mut text, pid as u64);
    push_text(&mut text, name);
    UnixPath::new(text.as_str())
}

/// Whether `r` is the thread count of a process, as far as `read` reads its status.
pub open spec fn is_thread_count<X, R: Fn(&UnixPath) -> Result<String, X>>(
    read: R,
    pid: u32,
    r: Option<u64>,
) -> bool {
    exists|status: Result<String, X>|
        #[trigger] answered(read, process_file(pid, "/status"@), status) && as_nat(r)
            == match status {
            Ok(text) => threads_of(lines_of(text@)),
            Err(_) => None,
        }
}

/// The thread count of a process, or `None` if `read` cannot read its status.
pub fn proc_threads<X, R: Fn(&UnixPath) -> Result<String, X>>(pid: u32, read: &R) -> (r: Option<u64>)
    requires
        forall|p: &UnixPath| call_requires(*read, (p,)),
    ensures
        is_thread_count(*read, pid, r),
{
    let path = process_path(pid, "/status");
    let status = read(&path);
    assert(answered(*read, process_file(pid, "/status"@), status));
    match status {
        Ok(text) => parse_threads(text.as_str()),
        Err(_) => None,
    }
}

/// The number of files that a process has open, as `count` counts the entries of the
/// directory that lists them.
pub fn proc_open_fds<C: Fn(&UnixPath) -> Option<u64>>(pid: u32, count: &C) -> (r: Option<u64>)
    requires
        forall|p: &UnixPath| call_requires(*count, (p,)),
    ensures
        answered(*count, process_file(pid, "/fd"@), r),
{
    let path = process_path(pid, "/fd");
    count(&path)
}

/// The thread count is the number on the first line that begins with `Threads:`, whatever
/// lines stand around it.
pub proof fn first_threads_line_counts(lines: Seq<Seq<char>>, i: int, rest: Seq<char>, n: u64)
    requires
        0 <= i < lines.len(),
        lines[i] == "Threads:"@ + rest,
        trim_of(rest) == decimal(n as nat),
        forall|j: int|
            0 <= j < i ==> (#[trigger] lines[j]).len() < "Threads:"@.len() || lines[j].take(
                "Threads:"@.len() as int,
            ) != "Threads:"@,
    ensures
        threads_of(lines) == Some(n as nat),
    decreases i,
{
    let key = "Threads:"@;
    if i == 0 {
        assert(lines[0].take(key.len() as int) == key);
        assert(lines[0].skip(key.len() as int) == rest);
        decimal_reads_back(n as nat, u64::MAX as nat);
    } else {
        let tail = lines.drop_first();
        assert(tail[i - 1] == lines[i]);
        assert forall|j: int| 0 <= j < i - 1 implies (#[trigger] tail[j]).len() < key.len()
            || tail[j].take(key.len() as int) != key by {
            assert(tail[j] == lines[j + 1]);
        }
        first_threads_line_counts(tail, i - 1, rest, n);
    }
}

/// Without such a line there is no thread count.
pub proof fn no_threads_line_no_count(lines: Seq<Seq<char>>)
    requires
        forall|j: int|
            0 <= j < lines.len() ==> (#[trigger] lines[j]).len() < "Threads:"@.len()
                || lines[j].take("Threads:"@.len() as int) != "Threads:"@,
    ensures
        threads_of(lines) is None,
    decreases lines.len(),
{
    if lines.len() > 0 {
        let tail = lines.drop_first();
        assert forall|j: int| 0 <= j < tail.len() implies (#[trigger] tail[j]).len()
            < "Threads:"@.len() || tail[j].take("Threads:"@.len() as int) != "Threads:"@ by {
            assert(tail[j] == lines[j + 1]);
        }
        no_threads_line_no_count(tail);
    }
}

/// The thread count is what the status of that process states, and none if that cannot be
/// read.
pub proof fn threads_are_those_of_the_process<X, R: Fn(&UnixPath) -> Result<String, X>>(
    read: R,
    pid: u32,
    r: Option<u64>,
)
    requires
        is_thread_count(read, pid, r),
    ensures
        r matches Some(n) ==> exists|text: String| #[trigger]
            answered(
                read,
                encode_utf8("/proc/"@ + decimal(pid as nat) + "/status"@),
                Ok::<String, X>(text),
            ) && threads_of(lines_of(text@)) == Some(n as nat),
{
    if let Some(n) = r {
        let status = choose|status: Result<String, X>|
            #[trigger] answered(read, process_file(pid, "/status"@), status) && as_nat(r)
                == match status {
                Ok(text) => threads_of(lines_of(text@)),
                Err(_) => None,
            };
        assert(answered(
            read,
            encode_utf8("/proc/"@ + decimal(pid as nat) + "/status"@),
            Ok::<String, X>(status->Ok_0),
        ));
    }
}

} // verus!
