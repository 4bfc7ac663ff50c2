//! The mount table and the cgroup memberships.

use draug::cgroup::CgroupVersion;
use draug::path::UnixPath;
use draug::procfs::{parse_mountinfo, parse_self_cgroup, unescape_octal, ProcSource, SelfCgroup};

fn text(p: &UnixPath) -> String {
    String::from_utf8(p.bytes.clone()).unwrap()
}

#[test]
fn mountinfo_v2_unified() {
    let s = "31 23 0:27 / /sys/fs/cgroup rw,nosuid - cgroup2 cgroup2 rw\n";
    let m = parse_mountinfo(s);
    assert_eq!(m.len(), 1);
    assert_eq!(m[0].fstype, CgroupVersion::V2);
    assert_eq!(text(&m[0].mount_point), "/sys/fs/cgroup");
    assert_eq!(text(&m[0].mount_root), "/");
}

#[test]
fn mountinfo_v1_split_memory_and_cpu() {
    let s = "\
40 31 0:35 / /sys/fs/cgroup/memory rw,nosuid - cgroup cgroup rw,memory
41 31 0:36 / /sys/fs/cgroup/cpu,cpuacct rw - cgroup cgroup rw,cpu,cpuacct
";
    let m = parse_mountinfo(s);
    assert_eq!(m.len(), 2);
    assert_eq!(m[0].fstype, CgroupVersion::V1);
    assert_eq!(text(&m[0].mount_point), "/sys/fs/cgroup/memory");
    assert!(m[0].controllers.iter().any(|c| c == "memory"));
    assert!(m[1].controllers.iter().any(|c| c == "cpu"));
    assert!(m[1].controllers.iter().any(|c| c == "cpuacct"));
}

#[test]
fn mountinfo_handles_optional_fields_before_separator() {
    let s = "40 31 0:35 / /sys/fs/cgroup/memory rw master:1 shared:2 - cgroup cgroup rw,memory\n";
    let m = parse_mountinfo(s);
    assert_eq!(text(&m[0].mount_point), "/sys/fs/cgroup/memory");
    assert!(m[0].controllers.iter().any(|c| c == "memory"));
}

#[test]
fn mountinfo_octal_escapes_in_path() {
    let s = "40 31 0:35 / /sys/fs/cgroup/a\\040b rw - cgroup cgroup rw,memory\n";
    let m = parse_mountinfo(s);
    assert_eq!(text(&m[0].mount_point), "/sys/fs/cgroup/a b");
}

#[test]
fn mountinfo_skips_non_cgroup_and_malformed_lines() {
    let s = "\
26 18 0:5 / /dev rw - devtmpfs devtmpfs rw
garbage line with no dash
40 31 0:35 / /sys/fs/cgroup/memory rw - cgroup cgroup rw,memory
";
    let m = parse_mountinfo(s);
    assert_eq!(m.len(), 1);
    assert_eq!(text(&m[0].mount_point), "/sys/fs/cgroup/memory");
}

#[test]
fn mountinfo_mount_root_subtree() {
    let s = "40 31 0:35 /leaf /sys/fs/cgroup/memory rw - cgroup cgroup rw,memory\n";
    let m = parse_mountinfo(s);
    assert_eq!(text(&m[0].mount_root), "/leaf");
}

#[test]
fn mountinfo_empty_and_blank_input_yields_empty() {
    assert!(parse_mountinfo("").is_empty());
    assert!(parse_mountinfo("\n\n").is_empty());
}

#[test]
fn mountinfo_needs_enough_fields() {
    assert!(parse_mountinfo("31 23 0:27 / - cgroup2 cgroup2 rw\n").is_empty());
    assert!(parse_mountinfo("31 23 0:27 / /cg rw - cgroup2 cgroup2\n").is_empty());
    assert_eq!(
        parse_mountinfo("31 23 0:27 / /cg - cgroup2 cgroup2 rw\r\n").len(),
        1
    );
}

#[test]
fn self_cgroup_v2_root() {
    let s = "0::/\n";
    match parse_self_cgroup(s) {
        SelfCgroup::V2 { path } => assert_eq!(text(&path), "/"),
        other => panic!("expected V2, got {other:?}"),
    }
}

#[test]
fn self_cgroup_v2_leaf() {
    let s = "0::/system.slice/app.service\n";
    match parse_self_cgroup(s) {
        SelfCgroup::V2 { path } => {
            assert_eq!(text(&path), "/system.slice/app.service")
        }
        other => panic!("expected V2, got {other:?}"),
    }
}

#[test]
fn self_cgroup_v1_multi_controller() {
    let s = "\
9:memory:/docker/abc
4:cpu,cpuacct:/docker/abc
";
    match parse_self_cgroup(s) {
        SelfCgroup::V1 { by_controller } => {
            assert_eq!(text(by_controller.get("memory").unwrap()), "/docker/abc");
            assert_eq!(text(by_controller.get("cpu").unwrap()), "/docker/abc");
            assert_eq!(text(by_controller.get("cpuacct").unwrap()), "/docker/abc");
        }
        other => panic!("expected V1, got {other:?}"),
    }
}

#[test]
fn self_cgroup_v1_namespaced_root() {
    let s = "9:memory:/\n";
    match parse_self_cgroup(s) {
        SelfCgroup::V1 { by_controller } => {
            assert_eq!(text(by_controller.get("memory").unwrap()), "/")
        }
        other => panic!("expected V1, got {other:?}"),
    }
}

#[test]
fn self_cgroup_ignores_malformed_lines() {
    let s = "\
garbage
9:memory:/ok
";
    match parse_self_cgroup(s) {
        SelfCgroup::V1 { by_controller } => {
            assert_eq!(by_controller.len(), 1);
            assert_eq!(text(by_controller.get("memory").unwrap()), "/ok");
        }
        other => panic!("expected V1, got {other:?}"),
    }
}

#[test]
fn self_cgroup_later_line_replaces_and_path_keeps_colons() {
    let s = "9:memory:/old\n8:memory,cpu:/new:x\n";
    match parse_self_cgroup(s) {
        SelfCgroup::V1 { by_controller } => {
            assert_eq!(by_controller.len(), 2);
            assert_eq!(text(by_controller.get("memory").unwrap()), "/new:x");
            assert!(by_controller.get("pids").is_none());
        }
        other => panic!("expected V1, got {other:?}"),
    }
}

#[test]
fn self_cgroup_unified_line_wins_over_earlier_ones() {
    match parse_self_cgroup("9:memory:/a\n0::/b\n") {
        SelfCgroup::V2 { path } => assert_eq!(text(&path), "/b"),
        other => panic!("expected V2, got {other:?}"),
    }
}

#[test]
fn proc_source_reads_files_or_empty_on_missing() {
    let read = |p: &UnixPath| {
        if text(p) == "/fixture/mountinfo" {
            Ok("X\n".to_string())
        } else {
            Err(())
        }
    };
    let ps = ProcSource {
        mountinfo: UnixPath::new("/fixture/mountinfo"),
        self_cgroup: UnixPath::new("/fixture/nope"),
    };
    assert_eq!(ps.read_mountinfo(&read), "X\n");
    assert_eq!(ps.read_self_cgroup(&read), "");
    let ps_missing_mi = ProcSource {
        mountinfo: UnixPath::new("/fixture/nope"),
        self_cgroup: UnixPath::new("/fixture/mountinfo"),
    };
    assert_eq!(ps_missing_mi.read_mountinfo(&read), "");
    assert_eq!(ps_missing_mi.read_self_cgroup(&read), "X\n");
}

#[test]
fn system_source_is_the_running_process() {
    let ps = ProcSource::system();
    assert_eq!(text(&ps.mountinfo), "/proc/self/mountinfo");
    assert_eq!(text(&ps.self_cgroup), "/proc/self/cgroup");
}

#[test]
fn octal_escapes_decode_to_bytes() {
    assert_eq!(unescape_octal("a\\040b\\011\\012\\134"), "a b\t\n\\");
    assert_eq!(unescape_octal("\\303\\251"), "\u{e9}");
    assert_eq!(unescape_octal("\\08x\\4"), "\\08x\\4");
    assert_eq!(unescape_octal("\\777"), "\\777");
    assert_eq!(unescape_octal("\\377"), "\u{fffd}");
    assert_eq!(unescape_octal("\\+40"), "\\+40");
    assert_eq!(unescape_octal("\\\u{e9}1"), "\\\u{e9}1");
}
