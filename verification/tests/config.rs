//! Flags, environment and the configuration they make.

use draug::binary64::Binary64;
use draug::config::{
    check_ratio, parse_duration, parse_psi_trigger, parse_ratio, Cli, Config, EnvVars,
    GracefulSignal, PsiTrigger,
};
use draug::log::LogLevel;
use draug::path::UnixPath;
use draug::time::Duration;

fn f(x: f64) -> Binary64 {
    Binary64::from_bits(x.to_bits())
}

fn number(s: &str) -> Option<Binary64> {
    s.parse::<f64>().ok().map(f)
}

fn text(p: &UnixPath) -> String {
    String::from_utf8(p.bytes.clone()).unwrap()
}

fn cli(target: &[&str]) -> Cli {
    Cli::with_defaults(target.iter().map(|s| s.to_string()).collect())
}

#[test]
fn flags_have_their_documented_defaults() {
    let cli = cli(&["true"]);
    assert_eq!(cli.restart_interval, "30m");
    assert_eq!(cli.mem_threshold, "0.85");
    assert_eq!(cli.psi_trigger, "150000/1000000");
    assert_eq!(cli.graceful_signal, "TERM");
    assert_eq!(cli.grace_period, "90s");
    assert_eq!(cli.tick, "2s");
    assert!(cli.heartbeat_file.is_none());
    assert_eq!(cli.heartbeat_max_age, "60s");
    assert_eq!(cli.startup_grace, "15s");
    assert_eq!(cli.max_failures, 3);
    assert_eq!(cli.backoff, "5s");
    assert_eq!(text(&cli.cgroup_root), "/sys/fs/cgroup");
    assert_eq!(cli.log_level, "info");
    assert!(!cli.log_timestamps);
    assert_eq!(cli.target, ["true"]);
}

fn empty_env() -> EnvVars {
    EnvVars::default()
}

fn build(cli: Cli, env: EnvVars) -> Result<Config, String> {
    Config::build(cli, env, &number)
}

#[test]
fn duration_units() {
    assert_eq!(parse_duration("90s").unwrap(), Duration::from_secs(90));
    assert_eq!(parse_duration("30m").unwrap(), Duration::from_secs(1800));
    assert_eq!(parse_duration("2h").unwrap(), Duration::from_secs(7200));
    assert_eq!(parse_duration("250ms").unwrap(), Duration::from_millis(250));
    assert_eq!(parse_duration("5").unwrap(), Duration::from_secs(5));
}

#[test]
fn duration_zero_is_zero() {
    assert_eq!(parse_duration("0").unwrap(), Duration::zero());
    assert_eq!(parse_duration("0s").unwrap(), Duration::zero());
}

#[test]
fn duration_rejects_garbage() {
    assert!(parse_duration("").is_err());
    assert!(parse_duration("abc").is_err());
    assert!(parse_duration("10x").is_err());
    assert!(parse_duration("-5s").is_err());
}

#[test]
fn duration_messages_and_limits() {
    assert_eq!(parse_duration(" \t"), Err("empty duration".to_string()));
    assert_eq!(
        parse_duration(" 10x "),
        Err("invalid duration: 10x".to_string())
    );
    assert_eq!(parse_duration(" 7 s ").unwrap(), Duration::from_secs(7));
    assert_eq!(parse_duration("+3m").unwrap(), Duration::from_secs(180));
    assert_eq!(
        parse_duration("18446744073709551615h").unwrap(),
        Duration::from_millis(u64::MAX)
    );
    assert!(parse_duration("18446744073709551616").is_err());
    assert!(parse_duration("ms").is_err());
}

#[test]
fn ratio_parsing() {
    assert_eq!(parse_ratio("0.85", &number).unwrap(), f(0.85));
    assert_eq!(parse_ratio("0", &number).unwrap(), f(0.0));
    assert_eq!(parse_ratio("1", &number).unwrap(), f(1.0));
}

#[test]
fn ratio_rejects_out_of_range() {
    assert!(parse_ratio("-0.1", &number).is_err());
    assert!(parse_ratio("1.5", &number).is_err());
    assert!(parse_ratio("x", &number).is_err());
    assert!(parse_ratio("NaN", &number).is_err());
    assert!(parse_ratio("inf", &number).is_err());
}

#[test]
fn ratio_messages() {
    assert_eq!(
        parse_ratio(" x", &number),
        Err("invalid ratio:  x".to_string())
    );
    assert_eq!(
        parse_ratio("inf", &number),
        Err("invalid ratio (not a finite number): inf".to_string())
    );
    assert_eq!(
        parse_ratio("1.0000001", &number),
        Err("ratio out of range [0,1]: 1.0000001".to_string())
    );
    assert_eq!(check_ratio("-0", Some(f(-0.0))), Ok(f(-0.0)));
}

#[test]
fn psi_trigger_parsing() {
    let t = parse_psi_trigger("150000/1000000").unwrap().unwrap();
    assert_eq!(t.stall_us, 150000);
    assert_eq!(t.window_us, 1000000);
    assert!(parse_psi_trigger("").unwrap().is_none());
    assert!(parse_psi_trigger("123").is_err());
    assert!(parse_psi_trigger("a/b").is_err());
    assert!(parse_psi_trigger("100/0").is_err());
    assert!(parse_psi_trigger("0/1000000").is_err());
    assert!(parse_psi_trigger("100/200/300").is_err());
    assert!(parse_psi_trigger("1000000/1000000").unwrap().is_some());
    assert!(parse_psi_trigger("2000000/1000000").is_err());
}

#[test]
fn psi_trigger_messages() {
    let cases = [
        ("123", "invalid psi trigger (want stall/window): 123"),
        ("a/1", "invalid psi stall"),
        ("1/2/3", "invalid psi trigger (too many '/'): 1/2/3"),
        ("a/2/3", "invalid psi stall"),
        ("1/b", "invalid psi window"),
        ("1/0", "psi window must be > 0"),
        ("0/1", "psi stall must be > 0"),
        ("3/2", "psi stall (3us) must not exceed window (2us)"),
    ];
    for (input, message) in cases {
        assert_eq!(parse_psi_trigger(input), Err(message.to_string()));
    }
    assert_eq!(
        parse_psi_trigger(" 1 / 2 "),
        Ok(Some(PsiTrigger {
            stall_us: 1,
            window_us: 2
        }))
    );
}

#[test]
fn defaults_and_target() {
    let cfg = build(cli(&["echo", "hi"]), empty_env()).unwrap();
    assert_eq!(cfg.restart_interval, Some(Duration::from_secs(1800)));
    assert_eq!(cfg.mem_threshold, Some(f(0.85)));
    assert_eq!(cfg.grace_period, Duration::from_secs(90));
    assert_eq!(cfg.tick, Duration::from_secs(2));
    assert_eq!(cfg.target, vec!["echo".to_string(), "hi".to_string()]);
    assert_eq!(text(&cfg.cgroup_root), "/sys/fs/cgroup");
    assert_eq!(cfg.log_level, LogLevel::Info);
    assert!(!cfg.log_timestamps);
}

#[test]
fn zero_disables_triggers() {
    let c = Cli {
        restart_interval: "0".into(),
        mem_threshold: "0".into(),
        psi_trigger: "".into(),
        ..cli(&["sleep", "1"])
    };
    let cfg = build(c, empty_env()).unwrap();
    assert_eq!(cfg.restart_interval, None);
    assert_eq!(cfg.mem_threshold, None);
    assert_eq!(cfg.psi_trigger, None);
}

#[test]
fn missing_target_is_error() {
    assert!(build(cli(&[]), empty_env()).is_err());
}

#[test]
fn heartbeat_flag_overrides_env() {
    let c = Cli {
        heartbeat_file: Some(UnixPath::new("/flag/hb")),
        ..cli(&["x"])
    };
    let env = EnvVars {
        heartbeat_file: Some("/env/hb".into()),
        ..Default::default()
    };
    let cfg = build(c, env).unwrap();
    assert_eq!(text(&cfg.heartbeat_file.unwrap()), "/flag/hb");
}

#[test]
fn heartbeat_from_env_when_flag_absent() {
    let env = EnvVars {
        heartbeat_file: Some("/env/hb".into()),
        ..Default::default()
    };
    let cfg = build(cli(&["x"]), env).unwrap();
    assert_eq!(text(&cfg.heartbeat_file.unwrap()), "/env/hb");
}

#[test]
fn graceful_signal_parsing() {
    let with = |signal: &str| {
        let c = Cli {
            graceful_signal: signal.into(),
            ..cli(&["x"])
        };
        build(c, empty_env()).unwrap().graceful_signal
    };
    assert_eq!(with("INT"), GracefulSignal::Int);
    let cfg = build(cli(&["x"]), empty_env()).unwrap();
    assert_eq!(cfg.graceful_signal, GracefulSignal::Term);
    assert_eq!(with("SIGTERM"), GracefulSignal::Term);
    assert_eq!(with("int"), GracefulSignal::Int);
}

#[test]
fn graceful_signal_invalid_is_error() {
    let c = Cli {
        graceful_signal: "SIGKILL".into(),
        ..cli(&["x"])
    };
    assert!(build(c, empty_env()).is_err());
    assert_eq!(
        GracefulSignal::parse("sigkill"),
        Err("invalid graceful signal: SIGKILL".to_string())
    );
    assert_eq!("SigInt".parse(), Ok(GracefulSignal::Int));
    assert!(" TERM".parse::<GracefulSignal>().is_err());
}

#[test]
fn zero_tick_is_error() {
    let c = Cli {
        tick: "0".into(),
        ..cli(&["x"])
    };
    assert!(build(c, empty_env()).is_err());
}

#[test]
fn zero_grace_period_is_error() {
    let c = Cli {
        grace_period: "0".into(),
        ..cli(&["x"])
    };
    assert!(build(c, empty_env()).is_err());
}

#[test]
fn zero_backoff_is_error() {
    let c = Cli {
        backoff: "0".into(),
        ..cli(&["x"])
    };
    assert!(build(c, empty_env()).is_err());
}

#[test]
fn zero_max_failures_is_error() {
    let c = Cli {
        max_failures: 0,
        ..cli(&["x"])
    };
    assert!(build(c, empty_env()).is_err());
}

#[test]
fn zero_startup_grace_is_error() {
    let c = Cli {
        startup_grace: "0".into(),
        ..cli(&["x"])
    };
    assert!(build(c, empty_env()).is_err());
}

#[test]
fn positive_startup_grace_ok() {
    let c = Cli {
        startup_grace: "1s".into(),
        ..cli(&["x"])
    };
    let cfg = build(c, empty_env()).unwrap();
    assert_eq!(cfg.startup_grace, Duration::from_secs(1));
}

#[test]
fn zero_heartbeat_max_age_with_heartbeat_is_error() {
    let c = Cli {
        heartbeat_file: Some(UnixPath::new("/tmp/hb")),
        heartbeat_max_age: "0".into(),
        ..cli(&["x"])
    };
    assert!(build(c, empty_env()).is_err());
}

#[test]
fn positive_heartbeat_max_age_with_heartbeat_ok() {
    let c = Cli {
        heartbeat_file: Some(UnixPath::new("/tmp/hb")),
        heartbeat_max_age: "1s".into(),
        ..cli(&["x"])
    };
    let cfg = build(c, empty_env()).unwrap();
    assert_eq!(cfg.heartbeat_max_age, Duration::from_secs(1));
}

#[test]
fn zero_heartbeat_max_age_without_heartbeat_ok() {
    let c = Cli {
        heartbeat_max_age: "0".into(),
        ..cli(&["x"])
    };
    let cfg = build(c, empty_env()).unwrap();
    assert_eq!(cfg.heartbeat_max_age, Duration::zero());
    assert!(cfg.heartbeat_file.is_none());
}

#[test]
fn default_max_failures_is_three() {
    let cfg = build(cli(&["x"]), empty_env()).unwrap();
    assert_eq!(cfg.max_failures, 3);
}

#[test]
fn positive_operational_intervals_ok() {
    assert!(build(cli(&["x"]), empty_env()).is_ok());
}

#[test]
fn first_fault_is_reported() {
    let message = |c: Cli| build(c, empty_env()).unwrap_err();
    assert_eq!(
        message(cli(&[])),
        "no target command given (expected `-- <cmd> [args]`)"
    );
    let c = Cli {
        restart_interval: "x".into(),
        mem_threshold: "y".into(),
        ..cli(&["t"])
    };
    assert_eq!(message(c), "invalid duration: x");
    let c = Cli {
        mem_threshold: "y".into(),
        tick: "0".into(),
        ..cli(&["t"])
    };
    assert_eq!(message(c), "invalid ratio: y");
    let c = Cli {
        tick: "0".into(),
        grace_period: "0".into(),
        ..cli(&["t"])
    };
    assert_eq!(message(c), "--tick must be greater than zero");
    let c = Cli {
        tick: "0".into(),
        heartbeat_max_age: "z".into(),
        ..cli(&["t"])
    };
    assert_eq!(message(c), "invalid duration: z");
    let c = Cli {
        max_failures: 0,
        startup_grace: "0".into(),
        ..cli(&["t"])
    };
    assert_eq!(message(c), "--max-failures must be greater than zero");
    let c = Cli {
        startup_grace: "0s".into(),
        graceful_signal: "HUP".into(),
        ..cli(&["t"])
    };
    assert_eq!(
        message(c),
        "--startup-grace must be greater than zero (zero disables crash-loop detection)"
    );
    let c = Cli {
        graceful_signal: "HUP".into(),
        log_level: "loud".into(),
        ..cli(&["t"])
    };
    assert_eq!(message(c), "invalid graceful signal: HUP");
    let c = Cli {
        log_level: "loud".into(),
        ..cli(&["t"])
    };
    assert_eq!(
        message(c),
        "invalid log level: loud (want error|warn|info|debug)"
    );
}

#[test]
fn empty_variables_count_as_unset() {
    let env = EnvVars::from_values(
        Some("".into()),
        Some("dsn".into()),
        None,
        Some("prod".into()),
        Some("".into()),
    );
    assert_eq!(env.webhook_url, None);
    assert_eq!(env.sentry_dsn, Some("dsn".to_string()));
    assert_eq!(env.service, None);
    assert_eq!(env.env, Some("prod".to_string()));
    assert_eq!(env.heartbeat_file, None);
}

#[test]
fn limits_are_those_of_the_configuration() {
    let cfg = build(cli(&["x"]), empty_env()).unwrap();
    let l = cfg.decision_limits();
    assert_eq!(l.restart_interval, Some(Duration::from_secs(1800)));
    assert_eq!(l.mem_threshold, Some(f(0.85)));
    assert_eq!(l.heartbeat_max_age, Duration::from_secs(60));
    assert_eq!(l.startup_grace, Duration::from_secs(15));
}
