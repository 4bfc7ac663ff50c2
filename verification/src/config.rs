//! Configuration: command-line flags (operational parameters) and environment
//! (endpoints, alert context).
//!
//! Triggers are switched off one by one: `--restart-interval 0` and `--mem-threshold
//! 0` turn those off, and `--psi-trigger ""` (the empty string, not `0`) turns
//! pressure off.

use crate::binary64::{lemma_magnitude_increases, lemma_one, spelled, Binary64};
use crate::decision::DecisionLimits;
use crate::log::{level_of, LogLevel};
use crate::path::UnixPath;
use crate::text::{
    chars_of, decimal, decimal_reads_back, digit, index_of, lemma_decimal, lemma_index_of,
    lemma_trimmed, number_of, parse_u64, push_decimal, push_text, same, separators_split, text_of,
    to_upper, told, trim, trim_of, trimming_takes_away_white_space, upper_of, white,
};
use crate::time::{Duration, NANOS_PER_MILLI};
use std::str::FromStr;
use vstd::arithmetic::power2::pow2;
use vstd::prelude::*;
use vstd::slice::slice_subrange;
use vstd::utf8::encode_utf8;

verus! {

/// A pressure threshold: `stall_us` microseconds of stall within a window of
/// `window_us` microseconds.
#[derive(Clone, Copy, PartialEq, Eq, Debug, Structural)]
pub struct PsiTrigger {
    pub stall_us: u64,
    pub window_us: u64,
}

/// The number part of a duration and the milliseconds that its unit stands for. A
/// bare number counts seconds.
pub open spec fn unit_of(t: Seq<char>) -> (Seq<char>, nat) {
    let n = t.len() as int;
    if n >= 2 && t[n - 2] == 'm' && t[n - 1] == 's' {
        (t.take(n - 2), 1)
    } else if n >= 1 && t[n - 1] == 's' {
        (t.take(n - 1), 1000)
    } else if n >= 1 && t[n - 1] == 'm' {
        (t.take(n - 1), 60_000)
    } else if n >= 1 && t[n - 1] == 'h' {
        (t.take(n - 1), 3_600_000)
    } else {
        (t, 1000)
    }
}

/// `n`, or the largest 64-bit number if `n` is larger.
pub open spec fn clamped(n: nat) -> nat {
    if n <= u64::MAX {
        n
    } else {
        u64::MAX as nat
    }
}

/// The duration that a text spells, or what to say about one that spells none.
pub open spec fn duration_of(s: Seq<char>) -> Result<Duration, Seq<char>> {
    let t = trim_of(s);
    let (number, unit) = unit_of(t);
    if t.len() == 0 {
        Err("empty duration"@)
    } else {
        match number_of(trim_of(number), u64::MAX as nat) {
            None => Err("invalid duration: "@ + t),
            Some(n) => Ok(Duration::of_nanos(clamped(n * unit) * NANOS_PER_MILLI as nat)),
        }
    }
}

/// Parse a duration: a bare number counts seconds; the units are `ms`, `s`, `m` and
/// `h`.
pub fn parse_duration(s: &str) -> (r: Result<Duration, String>)
    ensures
        told(r) == duration_of(s@),
{
    let chars = chars_of(s);
    let t = trim(chars.as_slice());
    let n: usize = t.len();
    if n == 0 {
        return Err("empty duration".to_owned());
    }
    let (digits, unit): (&[char], u64) = if n >= 2 && t[n - 2] == 'm' && t[n - 1] == 's' {
        (slice_subrange(t, 0, n - 2), 1)
    } else if t[n - 1] == 's' {
        (slice_subrange(t, 0, n - 1), 1000)
    } else if t[n - 1] == 'm' {
        (slice_subrange(t, 0, n - 1), 60_000)
    } else if t[n - 1] == 'h' {
        (slice_subrange(t, 0, n - 1), 3_600_000)
    } else {
        (t, 1000)
    };
    assert(digits@ == unit_of(t@).0 && unit == unit_of(t@).1);
    match parse_u64(trim(digits)) {
        None => {
            let mut e = "invalid duration: ".to_owned();
            push_text(&mut e, text_of(t).as_str());
            Err(e)
        },
        Some(value) => {
            assert(value * unit <= u64::MAX * 3_600_000) by (nonlinear_arith)
                requires
                    value <= u64::MAX,
                    unit <= 3_600_000,
            ;
            let product: u128 = value as u128 * unit as u128;
            let millis: u64 = if product <= u64::MAX as u128 {
                product as u64
            } else {
                u64::MAX
            };
            Ok(Duration::from_millis(millis))
        },
    }
}

/// The memory ratio that a text spells, given the number that it reads as, or what to
/// say about one that spells none from 0 to 1.
pub open spec fn ratio_of(s: Seq<char>, number: Option<Binary64>) -> Result<Binary64, Seq<char>> {
    match number {
        None => Err("invalid ratio: "@ + s),
        Some(v) => if !v.finite() {
            Err("invalid ratio (not a finite number): "@ + s)
        } else if !(0 <= v.scaled() <= pow2(1074)) {
            Err("ratio out of range [0,1]: "@ + s)
        } else {
            Ok(v)
        },
    }
}

/// A message with the text it is about.
fn message(text: &str, about: &str) -> (e: String)
    ensures
        e@ == text@ + about@,
{
    let mut e = text.to_owned();
    push_text(&mut e, about);
    e
}

/// The memory ratio that a text spells, given the number that it reads as.
pub fn check_ratio(s: &str, number: Option<Binary64>) -> (r: Result<Binary64, String>)
    ensures
        told(r) == ratio_of(s@, number),
{
    let v = match number {
        None => {
            return Err(message("invalid ratio: ", s));
        },
        Some(v) => v,
    };
    if !v.is_finite() {
        return Err(message("invalid ratio (not a finite number): ", s));
    }
    if !(v.ge(Binary64::zero()) && Binary64::one().ge(v)) {
        return Err(message("ratio out of range [0,1]: ", s));
    }
    Ok(v)
}

/// Parse a memory ratio from 0 to 1. `number` reads a decimal number.
pub fn parse_ratio<N: Fn(&str) -> Option<Binary64>>(s: &str, number: &N) -> (r: Result<
    Binary64,
    String,
>)
    requires
        forall|t: &str| call_requires(*number, (t,)),
    ensures
        exists|v: Option<Binary64>|
            #[trigger] spelled(*number, trim_of(s@), v) && told(r) == ratio_of(s@, v),
{
    let chars = chars_of(s);
    let t = text_of(trim(chars.as_slice()));
    let v = number(t.as_str());
    assert(spelled(*number, trim_of(s@), v));
    check_ratio(s, v)
}

/// The pressure trigger that a text spells (none for the empty text), or what to say
/// about one that spells none.
pub open spec fn psi_trigger_of(s: Seq<char>) -> Result<Option<PsiTrigger>, Seq<char>> {
    let t = trim_of(s);
    let n = index_of(t, '/') as int;
    let rest = t.skip(n + 1);
    if t.len() == 0 {
        Ok(None)
    } else if n >= t.len() {
        Err("invalid psi trigger (want stall/window): "@ + t)
    } else {
        match number_of(trim_of(t.take(n)), u64::MAX as nat) {
            None => Err("invalid psi stall"@),
            Some(stall) => if rest.contains('/') {
                Err("invalid psi trigger (too many '/'): "@ + t)
            } else {
                match number_of(trim_of(rest), u64::MAX as nat) {
                    None => Err("invalid psi window"@),
                    Some(window) => if window == 0 {
                        Err("psi window must be > 0"@)
                    } else if stall == 0 {
                        Err("psi stall must be > 0"@)
                    } else if stall > window {
                        Err(
                            "psi stall ("@ + decimal(stall) + "us) must not exceed window ("@
                                + decimal(window) + "us)"@,
                        )
                    } else {
                        Ok(
                            Some(
                                PsiTrigger { stall_us: stall as u64, window_us: window as u64 },
                            ),
                        )
                    },
                }
            },
        }
    }
}

/// The index of the first `c`, or the length without one.
fn position(s: &[char], c: char) -> (n: usize)
    ensures
        n == index_of(s@, c),
        n <= s@.len(),
{
    let mut i: usize = 0;
    assert(s@.skip(0) == s@);
    while i < s.len() && s[i] != c
        invariant
            i <= s@.len(),
            index_of(s@, c) == i + index_of(s@.skip(i as int), c),
        decreases s@.len() - i,
    {
        assert(s@.skip(i as int).drop_first() == s@.skip(i + 1));
        i = i + 1;
    }
    i
}

/// Parse a `stall/window` pressure trigger. The empty text switches it off.
pub fn parse_psi_trigger(s: &str) -> (r: Result<Option<PsiTrigger>, String>)
    ensures
        told(r) == psi_trigger_of(s@),
{
    let chars = chars_of(s);
    let t = trim(chars.as_slice());
    if t.len() == 0 {
        return Ok(None);
    }
    let len: usize = t.len();
    let n: usize = position(t, '/');
    if n == len {
        return Err(message("invalid psi trigger (want stall/window): ", text_of(t).as_str()));
    }
    let stall = slice_subrange(t, 0, n);
    let rest = slice_subrange(t, n + 1, len);
    assert(stall@ == t@.take(n as int));
    assert(rest@ == t@.skip(n + 1));
    let stall_us: u64 = match parse_u64(trim(stall)) {
        Some(v) => v,
        None => {
            return Err("invalid psi stall".to_owned());
        },
    };
    proof {
        lemma_index_of(rest@, '/');
    }
    if position(rest, '/') < rest.len() {
        assert(rest@.contains('/'));
        return Err(message("invalid psi trigger (too many '/'): ", text_of(t).as_str()));
    }
    assert(!rest@.contains('/'));
    let window_us: u64 = match parse_u64(trim(rest)) {
        Some(v) => v,
        None => {
            return Err("invalid psi window".to_owned());
        },
    };
    if window_us == 0 {
        return Err("psi window must be > 0".to_owned());
    }
    if stall_us == 0 {
        return Err("psi stall must be > 0".to_owned());
    }
    if stall_us > window_us {
        let mut e = "psi stall (".to_owned();
        push_decimal(&mut e, stall_us);
        push_text(&mut e, "us) must not exceed window (");
        push_decimal(&mut e, window_us);
        push_text(&mut e, "us)");
        return Err(e);
    }
    Ok(Some(PsiTrigger { stall_us, window_us }))
}

/// Which signal to send for a graceful stop.
#[derive(Clone, Copy, PartialEq, Eq, Debug, Structural)]
pub enum GracefulSignal {
    Term,
    Int,
}

/// The signal that a text names, in any letter case, or what to say about one that
/// names none.
pub open spec fn signal_of(s: Seq<char>) -> Result<GracefulSignal, Seq<char>> {
    let name = upper_of(s);
    if name == "TERM"@ || name == "SIGTERM"@ {
        Ok(GracefulSignal::Term)
    } else if name == "INT"@ || name == "SIGINT"@ {
        Ok(GracefulSignal::Int)
    } else {
        Err("invalid graceful signal: "@ + name)
    }
}

impl GracefulSignal {
    /// The signal that a text names.
    pub fn parse(s: &str) -> (r: Result<GracefulSignal, String>)
        ensures
            told(r) == signal_of(s@),
    {
        let chars = chars_of(s);
        let name = to_upper(chars.as_slice());
        let name = name.as_slice();
        if same(name, "TERM") || same(name, "SIGTERM") {
            Ok(GracefulSignal::Term)
        } else if same(name, "INT") || same(name, "SIGINT") {
            Ok(GracefulSignal::Int)
        } else {
            Err(message("invalid graceful signal: ", text_of(name).as_str()))
        }
    }
}

impl FromStr for GracefulSignal {
    type Err = String;

    fn from_str(s: &str) -> (r: Result<GracefulSignal, String>)
        ensures
            told(r) == signal_of(s@),
    {
        GracefulSignal::parse(s)
    }
}

/// Default of `--restart-interval`.
pub const DEFAULT_RESTART_INTERVAL: &'static str = "30m";

/// Default of `--mem-threshold`.
pub const DEFAULT_MEM_THRESHOLD: &'static str = "0.85";

/// Default of `--psi-trigger`.
pub const DEFAULT_PSI_TRIGGER: &'static str = "150000/1000000";

/// Default of `--graceful-signal`.
pub const DEFAULT_GRACEFUL_SIGNAL: &'static str = "TERM";

/// Default of `--grace-period`.
pub const DEFAULT_GRACE_PERIOD: &'static str = "90s";

/// Default of `--tick`.
pub const DEFAULT_TICK: &'static str = "2s";

/// Default of `--heartbeat-max-age`.
pub const DEFAULT_HEARTBEAT_MAX_AGE: &'static str = "60s";

/// Default of `--startup-grace`.
pub const DEFAULT_STARTUP_GRACE: &'static str = "15s";

/// Default of `--max-failures`.
pub const DEFAULT_MAX_FAILURES: u32 = 3;

/// Default of `--backoff`.
pub const DEFAULT_BACKOFF: &'static str = "5s";

/// Default of `--cgroup-root`.
pub const DEFAULT_CGROUP_ROOT: &'static str = "/sys/fs/cgroup";

/// Default of `--log-level`.
pub const DEFAULT_LOG_LEVEL: &'static str = "info";

/// The flags as they stand on the command line.
#[derive(Debug)]
pub struct Cli {
    pub restart_interval: String,
    pub mem_threshold: String,
    pub psi_trigger: String,
    pub graceful_signal: String,
    pub grace_period: String,
    pub tick: String,
    pub heartbeat_file: Option<UnixPath>,
    pub heartbeat_max_age: String,
    pub startup_grace: String,
    pub max_failures: u32,
    pub backoff: String,
    pub cgroup_root: UnixPath,
    pub log_level: String,
    pub log_timestamps: bool,
    /// Target command and its arguments.
    pub target: Vec<String>,
}

impl Cli {
    /// The flags of a command line that sets none of them.
    pub fn with_defaults(target: Vec<String>) -> (cli: Cli)
        ensures
            cli.restart_interval@ == "30m"@,
            cli.mem_threshold@ == "0.85"@,
            cli.psi_trigger@ == "150000/1000000"@,
            cli.graceful_signal@ == "TERM"@,
            cli.grace_period@ == "90s"@,
            cli.tick@ == "2s"@,
            cli.heartbeat_file is None,
            cli.heartbeat_max_age@ == "60s"@,
            cli.startup_grace@ == "15s"@,
            cli.max_failures == 3,
            cli.backoff@ == "5s"@,
            cli.cgroup_root.bytes@ == encode_utf8("/sys/fs/cgroup"@),
            cli.log_level@ == "info"@,
            !cli.log_timestamps,
            cli.target == target,
    {
        Cli {
            restart_interval: DEFAULT_RESTART_INTERVAL.to_owned(),
            mem_threshold: DEFAULT_MEM_THRESHOLD.to_owned(),
            psi_trigger: DEFAULT_PSI_TRIGGER.to_owned(),
            graceful_signal: DEFAULT_GRACEFUL_SIGNAL.to_owned(),
            grace_period: DEFAULT_GRACE_PERIOD.to_owned(),
            tick: DEFAULT_TICK.to_owned(),
            heartbeat_file: None,
            heartbeat_max_age: DEFAULT_HEARTBEAT_MAX_AGE.to_owned(),
            startup_grace: DEFAULT_STARTUP_GRACE.to_owned(),
            max_failures: DEFAULT_MAX_FAILURES,
            backoff: DEFAULT_BACKOFF.to_owned(),
            cgroup_root: UnixPath::new(DEFAULT_CGROUP_ROOT),
            log_level: DEFAULT_LOG_LEVEL.to_owned(),
            log_timestamps: false,
            target,
        }
    }
}

/// The part of the configuration that comes from the environment.
#[derive(Debug, Default)]
pub struct EnvVars {
    pub webhook_url: Option<String>,
    pub sentry_dsn: Option<String>,
    pub service: Option<String>,
    pub env: Option<String>,
    pub heartbeat_file: Option<String>,
}

/// A variable that is empty counts as one that is not set.
pub open spec fn set(value: Option<String>) -> Option<String> {
    match value {
        Some(v) => if v@.len() == 0 {
            None
        } else {
            Some(v)
        },
        None => None,
    }
}

fn non_empty(value: Option<String>) -> (r: Option<String>)
    ensures
        r == set(value),
{
    match value {
        Some(v) => {
            if v.as_str().unicode_len() == 0 {
                None
            } else {
                Some(v)
            }
        },
        None => None,
    }
}

impl EnvVars {
    /// The configuration that the values of `DRAUG_WEBHOOK_URL`, `SENTRY_DSN`,
    /// `DRAUG_SERVICE`, `DRAUG_ENV` and `DRAUG_HEARTBEAT_FILE` stand for.
    pub fn from_values(
        webhook_url: Option<String>,
        sentry_dsn: Option<String>,
        service: Option<String>,
        env: Option<String>,
        heartbeat_file: Option<String>,
    ) -> (r: EnvVars)
        ensures
            r.webhook_url == set(webhook_url),
            r.sentry_dsn == set(sentry_dsn),
            r.service == set(service),
            r.env == set(env),
            r.heartbeat_file == set(heartbeat_file),
    {
        EnvVars {
            webhook_url: non_empty(webhook_url),
            sentry_dsn: non_empty(sentry_dsn),
            service: non_empty(service),
            env: non_empty(env),
            heartbeat_file: non_empty(heartbeat_file),
        }
    }
}

/// Fully resolved configuration.
#[derive(Debug)]
pub struct Config {
    pub restart_interval: Option<Duration>,
    pub mem_threshold: Option<Binary64>,
    pub psi_trigger: Option<PsiTrigger>,
    pub graceful_signal: GracefulSignal,
    pub grace_period: Duration,
    pub tick: Duration,
    pub heartbeat_file: Option<UnixPath>,
    pub heartbeat_max_age: Duration,
    pub startup_grace: Duration,
    pub max_failures: u32,
    pub backoff: Duration,
    pub cgroup_root: UnixPath,
    pub log_level: LogLevel,
    pub log_timestamps: bool,
    pub target: Vec<String>,
    pub webhook_url: Option<String>,
    pub sentry_dsn: Option<String>,
    pub service: Option<String>,
    pub env: Option<String>,
}

/// The span, or none if it is empty.
pub open spec fn unless_zero(d: Duration) -> Option<Duration> {
    if d@ == 0 {
        None
    } else {
        Some(d)
    }
}

/// The span, or none if it is empty (a trigger that is switched off).
fn nonzero(d: Duration) -> (r: Option<Duration>)
    ensures
        r == unless_zero(d),
{
    if d.is_zero() {
        None
    } else {
        Some(d)
    }
}

/// The path of the heartbeat file: the flag if it is given, else the environment.
pub open spec fn heartbeat_path(cli: Cli, env: EnvVars) -> Option<Seq<u8>> {
    match cli.heartbeat_file {
        Some(p) => Some(p.bytes@),
        None => match env.heartbeat_file {
            Some(s) => Some(encode_utf8(s@)),
            None => None,
        },
    }
}

/// Whether the text spells an empty span.
pub open spec fn is_zero_duration(s: Seq<char>) -> bool {
    duration_of(s) matches Ok(d) && d@ == 0
}

/// What is wrong with the flags, if anything: the first fault in the order in which
/// they are looked at. `ratio` is what the memory threshold was read as.
pub open spec fn fault_of(cli: Cli, env: EnvVars, ratio: Result<Binary64, Seq<char>>) -> Option<
    Seq<char>,
> {
    if cli.target@.len() == 0 {
        Some("no target command given (expected `-- <cmd> [args]`)"@)
    } else if duration_of(cli.restart_interval@) is Err {
        Some(duration_of(cli.restart_interval@)->Err_0)
    } else if ratio is Err {
        Some(ratio->Err_0)
    } else if psi_trigger_of(cli.psi_trigger@) is Err {
        Some(psi_trigger_of(cli.psi_trigger@)->Err_0)
    } else if duration_of(cli.grace_period@) is Err {
        Some(duration_of(cli.grace_period@)->Err_0)
    } else if duration_of(cli.tick@) is Err {
        Some(duration_of(cli.tick@)->Err_0)
    } else if duration_of(cli.backoff@) is Err {
        Some(duration_of(cli.backoff@)->Err_0)
    } else if duration_of(cli.startup_grace@) is Err {
        Some(duration_of(cli.startup_grace@)->Err_0)
    } else if duration_of(cli.heartbeat_max_age@) is Err {
        Some(duration_of(cli.heartbeat_max_age@)->Err_0)
    } else if is_zero_duration(cli.tick@) {
        Some("--tick must be greater than zero"@)
    } else if is_zero_duration(cli.grace_period@) {
        Some("--grace-period must be greater than zero"@)
    } else if is_zero_duration(cli.backoff@) {
        Some("--backoff must be greater than zero"@)
    } else if cli.max_failures == 0 {
        Some("--max-failures must be greater than zero"@)
    } else if is_zero_duration(cli.startup_grace@) {
        Some("--startup-grace must be greater than zero (zero disables crash-loop detection)"@)
    } else if heartbeat_path(cli, env) is Some && is_zero_duration(cli.heartbeat_max_age@) {
        Some("--heartbeat-max-age must be greater than zero when --heartbeat-file is set"@)
    } else if signal_of(cli.graceful_signal@) is Err {
        Some(signal_of(cli.graceful_signal@)->Err_0)
    } else if level_of(cli.log_level@) is Err {
        Some(level_of(cli.log_level@)->Err_0)
    } else {
        None
    }
}

/// A ratio above zero, or none (a trigger that is switched off).
pub open spec fn threshold_of(ratio: Binary64) -> Option<Binary64> {
    if ratio.scaled() > 0 {
        Some(ratio)
    } else {
        None
    }
}

impl Config {
    /// Whether this is the configuration that the flags and the environment stand for.
    pub open spec fn stands_for(
        self,
        cli: Cli,
        env: EnvVars,
        ratio: Result<Binary64, Seq<char>>,
    ) -> bool {
        &&& duration_of(cli.restart_interval@) matches Ok(d) && self.restart_interval
            == unless_zero(d)
        &&& ratio matches Ok(r) && self.mem_threshold == threshold_of(r)
        &&& psi_trigger_of(cli.psi_trigger@) == Ok::<Option<PsiTrigger>, Seq<char>>(
            self.psi_trigger,
        )
        &&& duration_of(cli.grace_period@) == Ok::<Duration, Seq<char>>(self.grace_period)
        &&& duration_of(cli.tick@) == Ok::<Duration, Seq<char>>(self.tick)
        &&& duration_of(cli.backoff@) == Ok::<Duration, Seq<char>>(self.backoff)
        &&& duration_of(cli.startup_grace@) == Ok::<Duration, Seq<char>>(self.startup_grace)
        &&& duration_of(cli.heartbeat_max_age@) == Ok::<Duration, Seq<char>>(
            self.heartbeat_max_age,
        )
        &&& signal_of(cli.graceful_signal@) == Ok::<GracefulSignal, Seq<char>>(
            self.graceful_signal,
        )
        &&& level_of(cli.log_level@) == Ok::<LogLevel, Seq<char>>(self.log_level)
        &&& match self.heartbeat_file {
            Some(p) => heartbeat_path(cli, env) == Some(p.bytes@),
            None => heartbeat_path(cli, env) is None,
        }
        &&& self.max_failures == cli.max_failures
        &&& self.cgroup_root == cli.cgroup_root
        &&& self.log_timestamps == cli.log_timestamps
        &&& self.target == cli.target
        &&& self.webhook_url == env.webhook_url
        &&& self.sentry_dsn == env.sentry_dsn
        &&& self.service == env.service
        &&& self.env == env.env
    }

    /// The part of the configuration that the decision needs.
    pub fn decision_limits(&self) -> (l: DecisionLimits)
        ensures
            l == (DecisionLimits {
                restart_interval: self.restart_interval,
                mem_threshold: self.mem_threshold,
                heartbeat_max_age: self.heartbeat_max_age,
                startup_grace: self.startup_grace,
            }),
    {
        DecisionLimits {
            restart_interval: self.restart_interval,
            mem_threshold: self.mem_threshold,
            heartbeat_max_age: self.heartbeat_max_age,
            startup_grace: self.startup_grace,
        }
    }

    /// Turn flags and environment into a validated configuration. `number` reads a
    /// decimal number; it is given the memory threshold without white space around it.
    pub fn build<N: Fn(&str) -> Option<Binary64>>(cli: Cli, env: EnvVars, number: &N) -> (r: Result<
        Config,
        String,
    >)
        requires
            forall|t: &str| call_requires(*number, (t,)),
        ensures
            exists|v: Option<Binary64>|
                #[trigger] spelled(*number, trim_of(cli.mem_threshold@), v) && is_configuration(
                    cli,
                    env,
                    v,
                    r,
                ),
    {
        let chars = chars_of(cli.mem_threshold.as_str());
        let t = text_of(trim(chars.as_slice()));
        let v = number(t.as_str());
        assert(spelled(*number, trim_of(cli.mem_threshold@), v));
        Self::build_with(cli, env, v)
    }

    /// Turn flags and environment into a validated configuration, given the number that
    /// the memory threshold reads as.
    pub fn build_with(cli: Cli, env: EnvVars, threshold: Option<Binary64>) -> (r: Result<
        Config,
        String,
    >)
        ensures
            is_configuration(cli, env, threshold, r),
    {
        if cli.target.len() == 0 {
            return Err("no target command given (expected `-- <cmd> [args]`)".to_owned());
        }
        let restart_interval = match parse_duration(cli.restart_interval.as_str()) {
            Ok(d) => nonzero(d),
            Err(e) => {
                return Err(e);
            },
        };
        let ratio = match check_ratio(cli.mem_threshold.as_str(), threshold) {
            Ok(v) => v,
            Err(e) => {
                return Err(e);
            },
        };
        let mem_threshold = if Binary64::zero().ge(ratio) {
            None
        } else {
            Some(ratio)
        };
        let psi_trigger = match parse_psi_trigger(cli.psi_trigger.as_str()) {
            Ok(t) => t,
            Err(e) => {
                return Err(e);
            },
        };
        let ghost path = heartbeat_path(cli, env);
        let heartbeat_file = match cli.heartbeat_file {
            Some(p) => Some(p),
            None => match &env.heartbeat_file {
                Some(s) => Some(UnixPath::new(s.as_str())),
                None => None,
            },
        };
        let grace_period = match parse_duration(cli.grace_period.as_str()) {
            Ok(d) => d,
            Err(e) => {
                return Err(e);
            },
        };
        let tick = match parse_duration(cli.tick.as_str()) {
            Ok(d) => d,
            Err(e) => {
                return Err(e);
            },
        };
        let backoff = match parse_duration(cli.backoff.as_str()) {
            Ok(d) => d,
            Err(e) => {
                return Err(e);
            },
        };
        let startup_grace = match parse_duration(cli.startup_grace.as_str()) {
            Ok(d) => d,
            Err(e) => {
                return Err(e);
            },
        };
        let heartbeat_max_age = match parse_duration(cli.heartbeat_max_age.as_str()) {
            Ok(d) => d,
            Err(e) => {
                return Err(e);
            },
        };
        if tick.is_zero() {
            return Err("--tick must be greater than zero".to_owned());
        }
        if grace_period.is_zero() {
            return Err("--grace-period must be greater than zero".to_owned());
        }
        if backoff.is_zero() {
            return Err("--backoff must be greater than zero".to_owned());
        }
        if cli.max_failures == 0 {
            return Err("--max-failures must be greater than zero".to_owned());
        }
        if startup_grace.is_zero() {
            return Err(
                "--startup-grace must be greater than zero (zero disables crash-loop detection)".to_owned(),
            );
        }
        if heartbeat_file.is_some() && heartbeat_max_age.is_zero() {
            return Err(
                "--heartbeat-max-age must be greater than zero when --heartbeat-file is set".to_owned(),
            );
        }
        let graceful_signal = match GracefulSignal::parse(cli.graceful_signal.as_str()) {
            Ok(s) => s,
            Err(e) => {
                return Err(e);
            },
        };
        let log_level = match LogLevel::parse(cli.log_level.as_str()) {
            Ok(l) => l,
            Err(e) => {
                return Err(e);
            },
        };
        Ok(
            Config {
                restart_interval,
                mem_threshold,
                psi_trigger,
                graceful_signal,
                grace_period,
                tick,
                heartbeat_file,
                heartbeat_max_age,
                startup_grace,
                max_failures: cli.max_failures,
                backoff,
                cgroup_root: cli.cgroup_root,
                log_level,
                log_timestamps: cli.log_timestamps,
                target: cli.target,
                webhook_url: env.webhook_url,
                sentry_dsn: env.sentry_dsn,
                service: env.service,
                env: env.env,
            },
        )
    }
}

/// Whether `r` is what the flags and the environment come to, given the number that the
/// memory threshold reads as: the configuration that they stand for, or the first fault.
pub open spec fn is_configuration(
    cli: Cli,
    env: EnvVars,
    threshold: Option<Binary64>,
    r: Result<Config, String>,
) -> bool {
    let ratio = ratio_of(cli.mem_threshold@, threshold);
    match r {
        Err(e) => fault_of(cli, env, ratio) == Some(e@),
        Ok(config) => fault_of(cli, env, ratio) is None && config.stands_for(cli, env, ratio),
    }
}

/// A configuration that was accepted protects as promised: it has a target, every
/// interval that keeps the supervisor safe is positive, and every trigger that is on
/// has a sensible limit.
pub proof fn accepted_configuration_is_usable(
    config: Config,
    cli: Cli,
    env: EnvVars,
    number: Option<Binary64>,
)
    requires
        fault_of(cli, env, ratio_of(cli.mem_threshold@, number)) is None,
        config.stands_for(cli, env, ratio_of(cli.mem_threshold@, number)),
    ensures
        config.target@.len() > 0,
        config.tick@ > 0,
        config.grace_period@ > 0,
        config.backoff@ > 0,
        config.startup_grace@ > 0,
        config.max_failures > 0,
        config.heartbeat_file is Some ==> config.heartbeat_max_age@ > 0,
        config.restart_interval matches Some(d) ==> d@ > 0,
        config.mem_threshold matches Some(t) ==> t.finite() && 0 < t.scaled() <= pow2(1074),
        config.psi_trigger matches Some(t) ==> 0 < t.stall_us <= t.window_us,
{
}

/// Zero switches the periodic and the memory trigger off, and the empty text the
/// pressure trigger.
pub proof fn zero_switches_triggers_off(
    config: Config,
    cli: Cli,
    env: EnvVars,
    ratio: Result<Binary64, Seq<char>>,
)
    requires
        config.stands_for(cli, env, ratio),
    ensures
        is_zero_duration(cli.restart_interval@) <==> config.restart_interval is None,
        (ratio matches Ok(r) && r.scaled() <= 0) <==> config.mem_threshold is None,
        trim_of(cli.psi_trigger@).len() == 0 <==> config.psi_trigger is None,
{
}

/// A number with a unit spells that many of the unit, up to the largest count of
/// milliseconds; a bare number counts seconds.
pub proof fn durations_read_back(n: u64)
    ensures
        ({
            let d = decimal(n as nat);
            let millis = |unit: nat|
                Ok::<Duration, Seq<char>>(
                    Duration::of_nanos(clamped(n as nat * unit) * NANOS_PER_MILLI as nat),
                );
            &&& duration_of(d) == millis(1000)
            &&& duration_of(d + seq!['m', 's']) == millis(1)
            &&& duration_of(d.push('s')) == millis(1000)
            &&& duration_of(d.push('m')) == millis(60_000)
            &&& duration_of(d.push('h')) == millis(3_600_000)
        }),
{
    let d = decimal(n as nat);
    lemma_decimal(n as nat);
    assert(digit(d[0]) && digit(d.last()));
    decimal_reads_back(n as nat, u64::MAX as nat);
    lemma_trimmed(d);
    lemma_trimmed(d + seq!['m', 's']);
    lemma_trimmed(d.push('s'));
    lemma_trimmed(d.push('m'));
    lemma_trimmed(d.push('h'));
    assert((d + seq!['m', 's']).take(d.len() as int) == d);
    assert(d.push('s').take(d.len() as int) == d);
    assert(d.push('m').take(d.len() as int) == d);
    assert(d.push('h').take(d.len() as int) == d);
    assert(d.push('s')[d.len() - 1] == d.last());
}

/// A duration counts its unit: milliseconds, seconds, minutes or hours, and seconds without
/// one. What is more than the largest count of milliseconds is cut to that.
pub proof fn durations_count_their_unit(n: u64)
    ensures
        ({
            let d = decimal(n as nat);
            &&& duration_of(d + seq!['m', 's']) matches Ok(x) && x@ == n * 1_000_000
            &&& duration_of(d.push('s')) == duration_of(d)
            &&& duration_of(d) matches Ok(x) && x@ == if n <= 18_446_744_073_709_551 {
                n * 1_000_000_000
            } else {
                18_446_744_073_709_551_615_000_000
            }
            &&& duration_of(d.push('m')) matches Ok(x) && x@ == if n <= 307_445_734_561_825 {
                n * 60_000_000_000
            } else {
                18_446_744_073_709_551_615_000_000
            }
            &&& duration_of(d.push('h')) matches Ok(x) && x@ == if n <= 5_124_095_576_030 {
                n * 3_600_000_000_000
            } else {
                18_446_744_073_709_551_615_000_000
            }
        }),
{
    durations_read_back(n);
}

/// White space around a duration means nothing.
pub proof fn white_space_around_a_duration_means_nothing(s: Seq<char>)
    ensures
        duration_of(trim_of(s)) == duration_of(s),
        trim_of(s).len() == 0 ==> duration_of(s) is Err,
{
    trimming_takes_away_white_space(s);
}

/// A memory ratio is accepted, as it is, exactly if it is a number from 0 to 1.
pub proof fn ratios_lie_between_zero_and_one(s: Seq<char>, number: Option<Binary64>)
    ensures
        ratio_of(s, number) is Ok <==> (number matches Some(v) && !v.nan() && 0 <= v.scaled()
            <= pow2(1074)),
        ratio_of(s, number) matches Ok(r) ==> number == Some(r),
{
    if let Some(v) = number {
        if v.infinite() {
            let one = Binary64 { bits: 0x3ff0_0000_0000_0000 };
            lemma_one();
            lemma_magnitude_increases(one.bits as int, v.unsigned());
        }
    }
}

/// A pressure trigger reads back as its two numbers of microseconds, stall before window. It
/// is accepted exactly if both are positive and the stall fits into the window.
pub proof fn pressure_triggers_read_back(stall: u64, window: u64)
    ensures
        ({
            let text = decimal(stall as nat) + seq!['/'] + decimal(window as nat);
            &&& 0 < stall <= window ==> psi_trigger_of(text) == Ok::<
                Option<PsiTrigger>,
                Seq<char>,
            >(Some(PsiTrigger { stall_us: stall, window_us: window }))
            &&& !(0 < stall <= window) ==> psi_trigger_of(text) is Err
        }),
        forall|s: Seq<char>|
            trim_of(s).len() == 0 ==> #[trigger] psi_trigger_of(s) == Ok::<
                Option<PsiTrigger>,
                Seq<char>,
            >(None),
{
    let a = decimal(stall as nat);
    let b = decimal(window as nat);
    let text = a + seq!['/'] + b;
    lemma_decimal(stall as nat);
    lemma_decimal(window as nat);
    decimal_reads_back(stall as nat, u64::MAX as nat);
    decimal_reads_back(window as nat, u64::MAX as nat);
    assert(digit(a[0]) && digit(a.last()) && digit(b[0]) && digit(b.last()));
    assert forall|i: int| 0 <= i < a.len() implies a[i] != '/' by {
        assert(digit(a[i]));
    }
    assert forall|i: int| 0 <= i < b.len() implies b[i] != '/' by {
        assert(digit(b[i]));
    }
    separators_split(a, '/', b);
    lemma_trimmed(a);
    lemma_trimmed(b);
    lemma_trimmed(text);
    assert(text.take(a.len() as int) == a);
    assert(text.skip(a.len() as int + 1) == b);
}

/// The graceful signal is named in any letter case, with its prefix or without; nothing else
/// names one.
pub proof fn signals_are_named(s: Seq<char>)
    ensures
        signal_of(s) == Ok::<GracefulSignal, Seq<char>>(GracefulSignal::Term) <==> (upper_of(s)
            == "TERM"@ || upper_of(s) == "SIGTERM"@),
        signal_of(s) == Ok::<GracefulSignal, Seq<char>>(GracefulSignal::Int) <==> (upper_of(s)
            == "INT"@ || upper_of(s) == "SIGINT"@),
        signal_of(s) is Err <==> upper_of(s) != "TERM"@ && upper_of(s) != "SIGTERM"@ && upper_of(s)
            != "INT"@ && upper_of(s) != "SIGINT"@,
{
    reveal_strlit("TERM");
    reveal_strlit("SIGTERM");
    reveal_strlit("INT");
    reveal_strlit("SIGINT");
    assert("TERM"@.len() == 4 && "SIGTERM"@.len() == 7);
    assert("INT"@.len() == 3 && "SIGINT"@.len() == 6);
}

/// Every flag sets its own setting and no other: a configuration that was accepted holds what
/// each of the flags spells, and the environment as it is.
pub proof fn every_flag_sets_its_own(
    cli: Cli,
    env: EnvVars,
    threshold: Option<Binary64>,
    config: Config,
)
    requires
        is_configuration(cli, env, threshold, Ok(config)),
    ensures
        duration_of(cli.grace_period@) == Ok::<Duration, Seq<char>>(config.grace_period),
        duration_of(cli.tick@) == Ok::<Duration, Seq<char>>(config.tick),
        duration_of(cli.backoff@) == Ok::<Duration, Seq<char>>(config.backoff),
        duration_of(cli.startup_grace@) == Ok::<Duration, Seq<char>>(config.startup_grace),
        duration_of(cli.heartbeat_max_age@) == Ok::<Duration, Seq<char>>(config.heartbeat_max_age),
        duration_of(cli.restart_interval@) matches Ok(d) && {
            &&& d@ > 0 ==> config.restart_interval == Some(d)
            &&& d@ == 0 ==> config.restart_interval is None
        },
        threshold matches Some(r) && {
            &&& r.scaled() > 0 ==> config.mem_threshold == Some(r)
            &&& r.scaled() <= 0 ==> config.mem_threshold is None
        },
        psi_trigger_of(cli.psi_trigger@) == Ok::<Option<PsiTrigger>, Seq<char>>(config.psi_trigger),
        signal_of(cli.graceful_signal@) == Ok::<GracefulSignal, Seq<char>>(config.graceful_signal),
        level_of(cli.log_level@) == Ok::<LogLevel, Seq<char>>(config.log_level),
        config.max_failures == cli.max_failures,
        config.log_timestamps == cli.log_timestamps,
        config.cgroup_root == cli.cgroup_root,
        config.target == cli.target,
        config.webhook_url == env.webhook_url,
        config.sentry_dsn == env.sentry_dsn,
        config.service == env.service,
        config.env == env.env,
        cli.heartbeat_file matches Some(p) ==> (config.heartbeat_file matches Some(q) && q.bytes@
            == p.bytes@),
        cli.heartbeat_file is None ==> (env.heartbeat_file matches Some(s) ==> (
        config.heartbeat_file matches Some(q) && q.bytes@ == encode_utf8(s@))),
        cli.heartbeat_file is None && env.heartbeat_file is None ==> config.heartbeat_file is None,
{
}

/// Flags are accepted exactly if there is a target, every one of them can be read, and every
/// interval that keeps the supervisor safe is positive.
pub proof fn sound_flags_are_accepted(
    cli: Cli,
    env: EnvVars,
    threshold: Option<Binary64>,
    r: Result<Config, String>,
)
    requires
        is_configuration(cli, env, threshold, r),
    ensures
        r is Ok <==> {
            &&& cli.target@.len() > 0
            &&& duration_of(cli.restart_interval@) is Ok
            &&& (threshold matches Some(v) && !v.nan() && 0 <= v.scaled() <= pow2(1074))
            &&& psi_trigger_of(cli.psi_trigger@) is Ok
            &&& (duration_of(cli.grace_period@) matches Ok(d) && d@ > 0)
            &&& (duration_of(cli.tick@) matches Ok(d) && d@ > 0)
            &&& (duration_of(cli.backoff@) matches Ok(d) && d@ > 0)
            &&& (duration_of(cli.startup_grace@) matches Ok(d) && d@ > 0)
            &&& (duration_of(cli.heartbeat_max_age@) matches Ok(d) && (d@ > 0
                || (cli.heartbeat_file is None && env.heartbeat_file is None)))
            &&& cli.max_failures > 0
            &&& signal_of(cli.graceful_signal@) is Ok
            &&& level_of(cli.log_level@) is Ok
        },
{
    ratios_lie_between_zero_and_one(cli.mem_threshold@, threshold);
}

/// A variable of the environment counts as it is, unless it is empty.
pub proof fn empty_variables_are_not_set(value: Option<String>)
    ensures
        value matches Some(s) ==> (s@.len() > 0 ==> set(value) == value),
        value matches Some(s) ==> (s@.len() == 0 ==> set(value) is None),
        value is None ==> set(value) is None,
{
}

proof fn lemma_unit_counts(t: Seq<char>, x: Seq<char>, unit: nat, n: nat, most: nat)
    requires
        t.len() > 0,
        trim_of(t) == t,
        unit_of(t) == (x, unit),
        number_of(trim_of(x), u64::MAX as nat) == Some(n),
        most * unit <= u64::MAX,
    ensures
        n <= most ==> (duration_of(t) matches Ok(d) && d@ == n * unit * 1_000_000),
{
    if n <= most {
        assert(n * unit <= most * unit) by (nonlinear_arith)
            requires
                n <= most,
        ;
    }
}

/// A unit applies to the number before it, which may have a plus sign and white space behind
/// it; without a number there is no duration.
pub proof fn units_apply_to_the_number_before_them(x: Seq<char>)
    requires
        x.len() > 0,
        !white(x[0]),
        x.last() != 'm',
    ensures
        number_of(trim_of(x), u64::MAX as nat) matches Some(n) ==> {
            &&& n <= 18_446_744_073_709_551 ==> (duration_of(x.push('s')) matches Ok(d) && d@ == n
                * 1_000_000_000)
            &&& n <= 307_445_734_561_825 ==> (duration_of(x.push('m')) matches Ok(d) && d@ == n
                * 60_000_000_000)
            &&& n <= 5_124_095_576_030 ==> (duration_of(x.push('h')) matches Ok(d) && d@ == n
                * 3_600_000_000_000)
            &&& duration_of(x + seq!['m', 's']) matches Ok(d) && d@ == n * 1_000_000
        },
        number_of(trim_of(x), u64::MAX as nat) is None ==> {
            &&& duration_of(x.push('s')) is Err
            &&& duration_of(x.push('m')) is Err
            &&& duration_of(x.push('h')) is Err
            &&& duration_of(x + seq!['m', 's']) is Err
        },
{
    lemma_trimmed(x.push('s'));
    lemma_trimmed(x.push('m'));
    lemma_trimmed(x.push('h'));
    lemma_trimmed(x + seq!['m', 's']);
    assert(x.push('s').take(x.len() as int) == x);
    assert(x.push('m').take(x.len() as int) == x);
    assert(x.push('h').take(x.len() as int) == x);
    assert((x + seq!['m', 's']).take(x.len() as int) == x);
    assert(x.push('s')[x.len() - 1] == x.last());
    assert(unit_of(x.push('s')) == (x, 1000nat));
    assert(unit_of(x.push('m')) == (x, 60_000nat));
    assert(unit_of(x.push('h')) == (x, 3_600_000nat));
    assert(unit_of(x + seq!['m', 's']) == (x, 1nat));
    if let Some(n) = number_of(trim_of(x), u64::MAX as nat) {
        lemma_unit_counts(x.push('s'), x, 1000, n, 18_446_744_073_709_551);
        lemma_unit_counts(x.push('m'), x, 60_000, n, 307_445_734_561_825);
        lemma_unit_counts(x.push('h'), x, 3_600_000, n, 5_124_095_576_030);
        lemma_unit_counts(x + seq!['m', 's'], x, 1, n, u64::MAX as nat);
    }
}

/// A pressure trigger has one slash, between two numbers: without one, or with more, there is
/// none.
pub proof fn pressure_triggers_have_one_slash(s: Seq<char>)
    ensures
        (trim_of(s).len() > 0 && !trim_of(s).contains('/')) ==> psi_trigger_of(s) is Err,
        forall|i: int, j: int|
            0 <= i < j < trim_of(s).len() && #[trigger] trim_of(s)[i] == '/' && #[trigger] trim_of(
                s,
            )[j] == '/' ==> psi_trigger_of(s) is Err,
        psi_trigger_of(s) matches Ok(Some(t)) ==> 0 < t.stall_us <= t.window_us,
{
    let t = trim_of(s);
    lemma_index_of(t, '/');
    let n = index_of(t, '/') as int;
    let rest = t.skip(n + 1);
    if n < t.len() {
        assert(t.contains(t[n]));
    }
    assert forall|i: int, j: int|
        0 <= i < j < t.len() && #[trigger] t[i] == '/' && #[trigger] t[j] == '/' implies
        psi_trigger_of(s) is Err by {
        assert(n <= i);
        assert(rest[j - n - 1] == '/');
        assert(rest.contains('/'));
    }
}

/// The first fault is the one that is told: a missing target before everything, what cannot
/// be read before what is zero, and both in the order of the flags.
pub proof fn the_first_fault_is_told(
    cli: Cli,
    env: EnvVars,
    ratio: Result<Binary64, Seq<char>>,
)
    ensures
        ({
            let fault = fault_of(cli, env, ratio);
            let interval = duration_of(cli.restart_interval@);
            let grace = duration_of(cli.grace_period@);
            let tick = duration_of(cli.tick@);
            let backoff = duration_of(cli.backoff@);
            let startup = duration_of(cli.startup_grace@);
            let age = duration_of(cli.heartbeat_max_age@);
            let psi = psi_trigger_of(cli.psi_trigger@);
            let flags_read = interval is Ok && ratio is Ok && psi is Ok && grace is Ok && tick is Ok
                && backoff is Ok && startup is Ok && age is Ok;
            let named = cli.target@.len() > 0;
            &&& !named ==> fault == Some("no target command given (expected `-- <cmd> [args]`)"@)
            &&& named && interval is Err ==> fault == Some(interval->Err_0)
            &&& named && interval is Ok && ratio is Err ==> fault == Some(ratio->Err_0)
            &&& named && interval is Ok && ratio is Ok && psi is Err ==> fault == Some(psi->Err_0)
            &&& named && interval is Ok && ratio is Ok && psi is Ok && grace is Err ==> fault
                == Some(grace->Err_0)
            &&& named && interval is Ok && ratio is Ok && psi is Ok && grace is Ok && tick is Err
                ==> fault == Some(tick->Err_0)
            &&& named && interval is Ok && ratio is Ok && psi is Ok && grace is Ok && tick is Ok
                && backoff is Err ==> fault == Some(backoff->Err_0)
            &&& named && interval is Ok && ratio is Ok && psi is Ok && grace is Ok && tick is Ok
                && backoff is Ok && startup is Err ==> fault == Some(startup->Err_0)
            &&& named && interval is Ok && ratio is Ok && psi is Ok && grace is Ok && tick is Ok
                && backoff is Ok && startup is Ok && age is Err ==> fault == Some(age->Err_0)
            &&& named && flags_read && tick->Ok_0@ == 0 ==> fault == Some(
                "--tick must be greater than zero"@,
            )
            &&& named && flags_read && tick->Ok_0@ > 0 && grace->Ok_0@ == 0 ==> fault == Some(
                "--grace-period must be greater than zero"@,
            )
            &&& named && flags_read && tick->Ok_0@ > 0 && grace->Ok_0@ > 0 && backoff->Ok_0@ == 0
                ==> fault == Some("--backoff must be greater than zero"@)
            &&& named && flags_read && tick->Ok_0@ > 0 && grace->Ok_0@ > 0 && backoff->Ok_0@ > 0
                && cli.max_failures == 0 ==> fault == Some(
                "--max-failures must be greater than zero"@,
            )
            &&& named && flags_read && tick->Ok_0@ > 0 && grace->Ok_0@ > 0 && backoff->Ok_0@ > 0
                && cli.max_failures > 0 && startup->Ok_0@ == 0 ==> fault == Some(
                "--startup-grace must be greater than zero (zero disables crash-loop detection)"@,
            )
        }),
{
}

} // verus!
