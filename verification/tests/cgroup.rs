//! Limits, usage and where the controllers are.

use draug::binary64::Binary64;
use draug::cgroup::{
    adjust, detect, join_rel, parse_cpu_max_v2, parse_mem_max_v2, read_cpu, read_memory_current,
    read_memory_max, v1_cpu_quota_ratio, v1_limit_to_max, CgroupPaths, CgroupVersion,
    MemorySample, ReadError,
};
use draug::path::UnixPath;
use draug::procfs::ProcSource;
use std::path::Path;

fn f(x: f64) -> Binary64 {
    Binary64::from_bits(x.to_bits())
}

fn number(s: &str) -> Option<Binary64> {
    s.parse::<f64>().ok().map(f)
}

fn path(s: &str) -> UnixPath {
    UnixPath::new(s)
}

fn text(p: &UnixPath) -> String {
    String::from_utf8(p.bytes.clone()).unwrap()
}

fn same(p: &UnixPath, s: &str) -> bool {
    p.same_as(&path(s))
}

fn find(files: &[(&str, &str)], p: &UnixPath) -> Result<String, ()> {
    files
        .iter()
        .find(|(name, _)| *name == text(p))
        .map(|(_, content)| content.to_string())
        .ok_or(())
}

fn flat(files: &[(&str, &str)]) -> CgroupPaths {
    CgroupPaths::flat(&path("/cg"), &|p: &UnixPath| find(files, p).is_ok())
}

fn cpu(files: &[(&str, &str)]) -> Option<Binary64> {
    read_cpu(&flat(files), &|p: &UnixPath| find(files, p), &number)
}

fn current(files: &[(&str, &str)]) -> Result<u64, ReadError<()>> {
    read_memory_current(&flat(files), &|p: &UnixPath| find(files, p))
}

fn max(files: &[(&str, &str)]) -> Result<Option<u64>, ReadError<()>> {
    read_memory_max(&flat(files), &|p: &UnixPath| find(files, p))
}

fn resolve(root: &str, mountinfo: &str, self_cgroup: &str, files: &[&str]) -> CgroupPaths {
    let proc = ProcSource {
        mountinfo: path("/p/mountinfo"),
        self_cgroup: path("/p/cgroup"),
    };
    let table = [("/p/mountinfo", mountinfo), ("/p/cgroup", self_cgroup)];
    CgroupPaths::resolve(
        &path(root),
        &proc,
        &|p: &UnixPath| find(&table, p),
        &|p: &UnixPath| files.contains(&text(p).as_str()),
    )
}

#[test]
fn parse_cpu_max_variants() {
    assert_eq!(parse_cpu_max_v2("max 100000", &number), None);
    assert_eq!(parse_cpu_max_v2("50000 100000", &number), Some(f(0.5)));
    assert_eq!(parse_cpu_max_v2("200000 100000", &number), Some(f(2.0)));
    assert_eq!(parse_cpu_max_v2("50000 0", &number), None);
    assert_eq!(parse_cpu_max_v2("-50000 100000", &number), None);
    assert_eq!(parse_cpu_max_v2("50000 -100000", &number), None);
}

#[test]
fn cpu_max_needs_a_valid_pair() {
    assert_eq!(parse_cpu_max_v2("", &number), None);
    assert_eq!(parse_cpu_max_v2("50000", &number), None);
    assert_eq!(parse_cpu_max_v2("x 100000", &number), None);
    assert_eq!(parse_cpu_max_v2("50000 x", &number), None);
    assert_eq!(parse_cpu_max_v2("max x", &number), None);
    assert_eq!(
        parse_cpu_max_v2(" 1\t3 extra", &number),
        Some(f(1.0 / 3.0))
    );
    assert_eq!(parse_cpu_max_v2("0 100000", &number), None);
    assert_eq!(parse_cpu_max_v2("-0 1", &number), None);
    assert_eq!(parse_cpu_max_v2("nan 1", &number), None);
    assert_eq!(parse_cpu_max_v2("1 nan", &number), None);
    assert_eq!(
        parse_cpu_max_v2("inf 1", &number),
        Some(f(f64::INFINITY))
    );
}

#[test]
fn v1_quota_ratio() {
    assert_eq!(v1_cpu_quota_ratio(-1, 100000), None);
    assert_eq!(v1_cpu_quota_ratio(50000, 100000), Some(f(0.5)));
    assert_eq!(v1_cpu_quota_ratio(100000, 0), None);
}

#[test]
fn read_cpu_v2_from_fixture() {
    let files = [
        ("/cg/cgroup.controllers", "cpu\n"),
        ("/cg/cpu.max", "50000 100000\n"),
    ];
    assert_eq!(cpu(&files), Some(f(0.5)));
}

#[test]
fn read_cpu_v2_uncapped() {
    let files = [
        ("/cg/cgroup.controllers", "cpu\n"),
        ("/cg/cpu.max", "max 100000\n"),
    ];
    assert_eq!(cpu(&files), None);
}

#[test]
fn read_cpu_v2_missing_file_is_none() {
    assert_eq!(cpu(&[("/cg/cgroup.controllers", "cpu\n")]), None);
}

#[test]
fn read_cpu_v1_from_fixture() {
    let files = [
        ("/cg/cpu.cfs_quota_us", "50000\n"),
        ("/cg/cpu.cfs_period_us", "100000\n"),
    ];
    assert_eq!(cpu(&files), Some(f(0.5)));
}

#[test]
fn read_cpu_v1_uncapped() {
    let files = [
        ("/cg/cpu.cfs_quota_us", "-1\n"),
        ("/cg/cpu.cfs_period_us", "100000\n"),
    ];
    assert_eq!(cpu(&files), None);
    assert_eq!(cpu(&[("/cg/cpu.cfs_quota_us", "1\n")]), None);
    assert_eq!(cpu(&[]), None);
}

#[test]
fn parse_max_handles_max_and_number() {
    assert_eq!(parse_mem_max_v2("max"), None);
    assert_eq!(parse_mem_max_v2("max\n"), None);
    assert_eq!(parse_mem_max_v2("1048576"), Some(1048576));
}

#[test]
fn v1_sentinel_is_unlimited() {
    assert_eq!(v1_limit_to_max(9223372036854771712), None);
    assert_eq!(v1_limit_to_max(536870912), Some(536870912));
    assert_eq!(v1_limit_to_max(9223372036854771711), Some(9223372036854771711));
}

#[test]
fn ratio_none_when_unlimited() {
    let s = MemorySample {
        current: 100,
        max: None,
    };
    assert_eq!(s.ratio(), None);
    let s = MemorySample {
        current: 850,
        max: Some(1000),
    };
    assert_eq!(s.ratio(), Some(f(0.85)));
}

#[test]
fn ratio_zero_limit_with_usage_is_over_limit() {
    let s = MemorySample {
        current: 1,
        max: Some(0),
    };
    let r = s.ratio().expect("ratio must be Some for a limited cgroup");
    assert_eq!(r, f(f64::INFINITY));
    assert!(r.ge(f(1.0)));
}

#[test]
fn ratio_zero_limit_zero_usage_is_zero() {
    let s = MemorySample {
        current: 0,
        max: Some(0),
    };
    assert_eq!(s.ratio(), Some(f(0.0)));
}

#[test]
fn exhausted_limit_is_at_least_one() {
    for (current, max) in [
        (1u64, 1u64),
        (u64::MAX, u64::MAX - 1),
        (9_007_199_254_740_993, 9_007_199_254_740_993),
        (3, 2),
    ] {
        let s = MemorySample {
            current,
            max: Some(max),
        };
        assert!(s.ratio().unwrap().ge(f(1.0)));
    }
}

#[test]
fn detect_v2_when_controllers_present() {
    let root = path("/cg");
    let found = detect(&root, &|p: &UnixPath| text(p) == "/cg/cgroup.controllers");
    assert_eq!(found, CgroupVersion::V2);
}

#[test]
fn detect_v1_when_no_controllers() {
    assert_eq!(
        detect(&path("/cg"), &|_: &UnixPath| false),
        CgroupVersion::V1
    );
}

#[test]
fn read_memory_current_v2_from_fixture() {
    let files = [
        ("/cg/cgroup.controllers", "memory\n"),
        ("/cg/memory.current", "900\n"),
    ];
    assert_eq!(current(&files).unwrap(), 900);
}

#[test]
fn read_memory_current_v1_from_fixture() {
    assert_eq!(
        current(&[("/cg/memory.usage_in_bytes", "256\n")]).unwrap(),
        256
    );
}

#[test]
fn read_memory_current_missing_errors() {
    assert_eq!(
        current(&[("/cg/cgroup.controllers", "memory\n")]),
        Err(ReadError::Io(()))
    );
}

#[test]
fn usage_that_is_no_integer_errors() {
    assert_eq!(
        current(&[("/cg/memory.usage_in_bytes", "lots\n")]),
        Err(ReadError::NotAnInteger)
    );
}

#[test]
fn read_memory_max_v2_number_and_unlimited() {
    let v2 = ("/cg/cgroup.controllers", "memory\n");
    assert_eq!(max(&[v2, ("/cg/memory.max", "1000\n")]).unwrap(), Some(1000));
    assert_eq!(max(&[v2, ("/cg/memory.max", "max\n")]).unwrap(), None);
}

#[test]
fn read_memory_max_v1_number_and_sentinel() {
    let limit = |s: &'static str| max(&[("/cg/memory.limit_in_bytes", s)]);
    assert_eq!(limit("512\n").unwrap(), Some(512));
    assert_eq!(limit("9223372036854771712\n").unwrap(), None);
    assert_eq!(limit("max\n"), Err(ReadError::NotAnInteger));
}

#[test]
fn cached_max_plus_current_yields_expected_sample_v2() {
    let files = [
        ("/cg/cgroup.controllers", "memory\n"),
        ("/cg/memory.max", "1000\n"),
        ("/cg/memory.current", "850\n"),
    ];
    let per_tick = MemorySample {
        current: current(&files).unwrap(),
        max: max(&files).unwrap(),
    };
    assert_eq!(
        per_tick,
        MemorySample {
            current: 850,
            max: Some(1000),
        }
    );
    assert_eq!(per_tick.ratio(), Some(f(0.85)));
}

#[test]
fn cached_max_plus_current_yields_expected_sample_v1() {
    let files = [
        ("/cg/memory.limit_in_bytes", "512\n"),
        ("/cg/memory.usage_in_bytes", "256\n"),
    ];
    let per_tick = MemorySample {
        current: current(&files).unwrap(),
        max: max(&files).unwrap(),
    };
    assert_eq!(
        per_tick,
        MemorySample {
            current: 256,
            max: Some(512),
        }
    );
    assert_eq!(per_tick.ratio(), Some(f(0.5)));
}

#[test]
fn v2_unified_namespaced() {
    let p = resolve(
        "/d/cg",
        "31 23 0:27 / /d/cg rw - cgroup2 cgroup2 rw\n",
        "0::/\n",
        &[],
    );
    assert_eq!(p.version, CgroupVersion::V2);
    assert!(same(&p.memory_dir, "/d/cg"));
    assert!(same(&p.cpu_dir, "/d/cg"));
}

#[test]
fn v2_unified_non_namespaced_joins_leaf() {
    let p = resolve(
        "/d/cg",
        "31 23 0:27 / /d/cg rw - cgroup2 cgroup2 rw\n",
        "0::/system.slice/app\n",
        &[],
    );
    assert!(same(&p.memory_dir, "/d/cg/system.slice/app"));
}

#[test]
fn v1_split_namespaced_memory_subdir() {
    let p = resolve(
        "/d/cg",
        "40 31 0:35 / /d/cg/memory rw - cgroup cgroup rw,memory\n",
        "9:memory:/\n",
        &[],
    );
    assert_eq!(p.version, CgroupVersion::V1);
    assert!(same(&p.memory_dir, "/d/cg/memory"));
    assert!(same(&p.cpu_dir, "/d/cg/cpu,cpuacct"));
}

#[test]
fn v1_cpu_cpuacct_combined() {
    let p = resolve(
        "/d/cg",
        "40 31 0:35 / /d/cg/memory rw - cgroup cgroup rw,memory\n\
         41 31 0:36 / /d/cg/cpu,cpuacct rw - cgroup cgroup rw,cpu,cpuacct\n",
        "9:memory:/\n4:cpu,cpuacct:/\n",
        &[],
    );
    assert!(same(&p.cpu_dir, "/d/cg/cpu,cpuacct"));
}

#[test]
fn v1_non_namespaced_joins_relative() {
    let p = resolve(
        "/d/cg",
        "40 31 0:35 / /d/cg/memory rw - cgroup cgroup rw,memory\n",
        "9:memory:/docker/abc\n",
        &[],
    );
    assert!(same(&p.memory_dir, "/d/cg/memory/docker/abc"));
}

#[test]
fn v2_self_cgroup_without_v2_mount_resolves_v1_at_root() {
    let p = resolve(
        "/d/cg",
        "40 31 0:35 / /d/cg/memory rw - cgroup cgroup rw,memory\n",
        "0::/system.slice/app\n",
        &[],
    );
    assert_eq!(p.version, CgroupVersion::V1);
    assert!(same(&p.memory_dir, "/d/cg/memory"));
}

#[test]
fn v1_controller_absent_from_self_cgroup_defaults_to_root() {
    let p = resolve(
        "/d/cg",
        "40 31 0:35 / /d/cg/memory rw - cgroup cgroup rw,memory\n",
        "4:cpu,cpuacct:/some/path\n",
        &[],
    );
    assert_eq!(p.version, CgroupVersion::V1);
    assert!(same(&p.memory_dir, "/d/cg/memory"));
}

#[test]
fn fallback_conventional_v1_when_proc_empty() {
    let p = resolve("/d/cg", "", "", &["/d/cg/memory/memory.limit_in_bytes"]);
    assert_eq!(p.version, CgroupVersion::V1);
    assert!(same(&p.memory_dir, "/d/cg/memory"));
    assert!(same(&p.cpu_dir, "/d/cg/cpu,cpuacct"));
}

#[test]
fn fallback_conventional_v2_when_proc_empty() {
    let p = resolve("/d/cg", "", "", &["/d/cg/cgroup.controllers"]);
    assert_eq!(p.version, CgroupVersion::V2);
    assert!(same(&p.memory_dir, "/d/cg"));
    assert!(same(&p.cpu_dir, "/d/cg"));
}

#[test]
fn fallback_legacy_flat_when_nothing_present() {
    let p = resolve("/d/cg", "", "", &[]);
    assert_eq!(p.version, CgroupVersion::V1);
    assert!(same(&p.memory_dir, "/d/cg"));
}

#[test]
fn mount_base_override_reroots_v1() {
    let p = resolve(
        "/d/custom",
        "40 31 0:35 / /sys/fs/cgroup/memory rw - cgroup cgroup rw,memory\n",
        "9:memory:/\n",
        &[],
    );
    assert!(same(&p.memory_dir, "/d/custom/memory"));
}

#[test]
fn v2_mount_root_subtree_adjusts() {
    let p = resolve(
        "/d/cg",
        "31 23 0:27 /leaf /d/cg rw - cgroup2 cgroup2 rw\n",
        "0::/leaf/app\n",
        &[],
    );
    assert!(same(&p.memory_dir, "/d/cg/app"));
}

#[test]
fn unified_mount_elsewhere_does_not_decide() {
    let p = resolve(
        "/d/cg",
        "31 23 0:27 / /d/cg/unified rw - cgroup2 cgroup2 rw\n\
         40 31 0:35 / /d/cg/memory rw - cgroup cgroup rw,memory\n",
        "0::/x\n",
        &[],
    );
    assert_eq!(p.version, CgroupVersion::V1);
}

#[test]
fn mount_at_the_root_has_no_name_to_use() {
    let p = resolve(
        "/d/cg",
        "40 31 0:35 / / rw - cgroup cgroup rw,memory\n",
        "9:memory:/\n",
        &["/d/cg/cgroup.controllers"],
    );
    assert_eq!(p.version, CgroupVersion::V2);
}

#[test]
fn the_text_of_a_membership_is_kept() {
    let v2 = "31 23 0:27 / /sys/fs/cgroup rw - cgroup2 cgroup2 rw\n";
    let dir = |memberships: &str| {
        let p = resolve("/sys/fs/cgroup", v2, memberships, &[]);
        assert_eq!(text(&p.memory_dir), text(&p.cpu_dir));
        text(&p.memory_dir)
    };
    assert_eq!(dir("0::/a//b\n"), "/sys/fs/cgroup/a//b");
    assert_eq!(dir("0::/a/./b/\n"), "/sys/fs/cgroup/a/./b");
    assert_eq!(dir("0:://a\n"), "/sys/fs/cgroup/a");
    assert_eq!(dir("0::/\n"), "/sys/fs/cgroup");
    let p = resolve(
        "/d/cg/",
        "40 31 0:35 /leaf /d/cg/memory rw - cgroup cgroup rw,memory\n",
        "9:memory:/leaf//x//y\n",
        &[],
    );
    assert_eq!(text(&p.memory_dir), "/d/cg/memory/x//y");
    assert_eq!(text(&p.cpu_dir), "/d/cg/cpu,cpuacct");
}

#[test]
fn paths_are_adjusted_and_joined_as_text() {
    let texts = [
        "", "/", "//", ".", "./a", "a//b", "/a", "/a/", "/a//b", "/a/./b/", "//a/b", "/b", "/a/b/c//d",
        "/..", "/a/../b",
    ];
    for a in texts {
        for b in texts {
            let adjusted = if Path::new(b) == Path::new("/") {
                Path::new(a).to_path_buf()
            } else {
                match Path::new(a).strip_prefix(b) {
                    Ok(rest) => Path::new("/").join(rest),
                    Err(_) => Path::new(a).to_path_buf(),
                }
            };
            assert_eq!(
                text(&adjust(&path(a), &path(b))),
                adjusted.to_str().unwrap(),
                "{a:?} {b:?}"
            );
            let rest = Path::new(b).strip_prefix("/").unwrap_or(Path::new(b));
            let joined = if rest.as_os_str().is_empty() {
                Path::new(a).to_path_buf()
            } else {
                Path::new(a).join(rest)
            };
            assert_eq!(
                text(&join_rel(&path(a), &path(b))),
                joined.to_str().unwrap(),
                "{a:?} {b:?}"
            );
        }
    }
}

#[test]
fn adjust_identity_when_root_is_slash() {
    assert!(same(&adjust(&path("/a/b"), &path("/")), "/a/b"));
}

#[test]
fn adjust_strips_mount_root_subtree() {
    assert!(same(&adjust(&path("/leaf/x"), &path("/leaf")), "/x"));
}

#[test]
fn adjust_equal_path_becomes_root() {
    assert!(same(&adjust(&path("/leaf"), &path("/leaf")), "/"));
}

#[test]
fn join_rel_empty_returns_base() {
    assert!(same(&join_rel(&path("/base"), &path("/")), "/base"));
}

#[test]
fn join_rel_appends_relative() {
    assert!(same(&join_rel(&path("/base"), &path("/x/y")), "/base/x/y"));
}

#[test]
fn adjust_returns_path_unchanged_when_mount_root_not_a_prefix() {
    assert!(same(&adjust(&path("/a/b"), &path("/c")), "/a/b"));
}

#[test]
fn join_rel_empty_path_returns_base() {
    assert!(same(&join_rel(&path("/base"), &path("")), "/base"));
}

#[test]
fn join_rel_relative_without_leading_slash_appends() {
    assert!(same(&join_rel(&path("/base"), &path("x/y")), "/base/x/y"));
}
