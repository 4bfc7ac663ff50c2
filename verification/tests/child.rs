//! Launching, signalling and waiting.

use draug::child::{
    exit_status_from_code, exit_status_signaled, signal_group, spawn, target_env, wait_blocking,
    WaitNext, WaitReport, ECHILD, ESRCH,
};
use draug::path::UnixPath;

fn argv(words: &[&str]) -> Vec<String> {
    words.iter().map(|s| s.to_string()).collect()
}

#[test]
fn nothing_to_launch_without_a_command() {
    assert!(spawn(&Vec::new(), &Vec::new()).is_none());
}

#[test]
fn command_is_split_into_program_and_arguments() {
    let plan = spawn(&argv(&["sleep", "30", "x y"]), &Vec::new()).unwrap();
    assert_eq!(plan.program, "sleep");
    assert_eq!(plan.args, argv(&["30", "x y"]));
    assert!(plan.env.is_empty());
}

#[test]
fn heartbeat_file_is_passed_on() {
    let env = target_env(&Some(UnixPath::new("/run/draug/hb")));
    assert_eq!(
        env,
        vec![(
            "DRAUG_HEARTBEAT_FILE".to_string(),
            "/run/draug/hb".to_string()
        )]
    );
    assert_eq!(spawn(&argv(&["true"]), &env).unwrap().env, env);
    assert!(target_env(&None).is_empty());
}

#[test]
fn extra_env_is_passed() {
    let extra = vec![("FOO".to_string(), "bar".to_string())];
    let plan = spawn(&argv(&["sh", "-c", "test \"$FOO\" = bar"]), &extra).unwrap();
    assert_eq!(plan.program, "sh");
    assert_eq!(plan.args, argv(&["-c", "test \"$FOO\" = bar"]));
    assert_eq!(plan.env, extra);
}

#[test]
fn signal_already_dead_is_ok() {
    assert_eq!(signal_group(Some(ESRCH)), Ok(()));
    assert_eq!(signal_group(None), Ok(()));
    assert_eq!(signal_group(Some(1)), Err(1));
}

#[test]
fn wait_goes_on_until_the_target_ends() {
    assert_eq!(wait_blocking(WaitReport::Changed), WaitNext::Again);
    assert_eq!(
        wait_blocking(WaitReport::Exited(3)),
        WaitNext::Done(3 << 8)
    );
    assert_eq!(wait_blocking(WaitReport::Signaled(15)), WaitNext::Done(15));
    assert_eq!(
        wait_blocking(WaitReport::Failed(ECHILD)),
        WaitNext::Done(0)
    );
    assert_eq!(wait_blocking(WaitReport::Failed(22)), WaitNext::Fail(22));
}

#[test]
fn wait_status_keeps_the_low_byte_of_the_code() {
    for code in [0, 1, 137, 255, 256, 511, -1, i32::MIN, i32::MAX] {
        assert_eq!(exit_status_from_code(code), (code & 0xff) << 8);
    }
    assert_eq!(exit_status_signaled(9), 9);
}
