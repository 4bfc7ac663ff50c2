//! Memory and CPU limits of the cgroup, in both hierarchy versions.
//!
//! v2: `memory.current`, `memory.max`, `cpu.max`.
//! v1: `memory.usage_in_bytes`, `memory.limit_in_bytes`, `cpu.cfs_quota_us` and
//! `cpu.cfs_period_us`.
//!
//! The directories of the controllers are located from the mount table and the
//! cgroup memberships of the process, so reads land in the right place on split
//! hierarchies (where `memory.*` lives under `<root>/memory/`) as well as on
//! unified ones. Functions that look at files take the looking as a parameter: `read`
//! reads a file, `exists` says whether there is one.

use crate::binary64::{
    consistent, is_quotient, lemma_magnitude_increases, lemma_magnitude_small, nearest,
    nearest_is_finite,
    no_number_lies_between_a_quotient_and_its_rounding,
    quotient_at_least_one, rounding_is_monotone, rounds_to, spelled, Binary64, INFINITY_BITS,
};
use crate::path::{
    absolute, join_text, joined, lemma_join, lemma_lead, name_is_a_path, name_of, part_is_no_dot,
    parts_of,
    rest_has_the_parts_left, root_comes_first, root_part, stripped, stripped_text, text_after,
    UnixPath, SLASH,
};
use crate::procfs::{
    content_or_empty, mount_views, mounts_of, parse_mountinfo, parse_self_cgroup, self_cgroup_of,
    strings, CgroupMount, MountView, ProcSource, SelfCgroup, SelfView,
};
use crate::text::{
    as_nat, chars_of, decimal, decimal_reads_back, digit, lemma_decimal, lemma_trimmed, lines_of,
    number_of, parse_i64, parse_u64, same, signed_number_of, signed_numbers_read_back, text_of,
    texts, trim, trim_end_of, trim_of, trim_start_of, words, words_of,
};
use vstd::arithmetic::power2::pow2;
use vstd::prelude::*;
use vstd::utf8::{encode_utf8, leading_byte_width_1};

verus! {

/// cgroup hierarchy version.
#[derive(Clone, Copy, PartialEq, Eq, Debug, Structural)]
pub enum CgroupVersion {
    V1,
    V2,
}

/// The directories of the controllers, and the hierarchy version.
#[derive(Debug)]
pub struct CgroupPaths {
    pub version: CgroupVersion,
    /// Directory that holds `memory.*`.
    pub memory_dir: UnixPath,
    /// Directory that holds `cpu.*`.
    pub cpu_dir: UnixPath,
}

/// Where the controllers are, by the texts of their paths.
pub struct PathsView {
    pub version: CgroupVersion,
    pub memory_dir: Seq<u8>,
    pub cpu_dir: Seq<u8>,
}

impl View for CgroupPaths {
    type V = PathsView;

    open spec fn view(&self) -> PathsView {
        PathsView {
            version: self.version,
            memory_dir: self.memory_dir.bytes@,
            cpu_dir: self.cpu_dir.bytes@,
        }
    }
}

/// The parts of the root directory.
pub open spec fn root_dir() -> Seq<Seq<u8>> {
    seq![root_part()]
}

/// The parts of a path written out.
pub open spec fn named(text: Seq<char>) -> Seq<Seq<u8>> {
    parts_of(encode_utf8(text))
}

/// The parts of the cgroup path of the process relative to the part of the hierarchy that
/// is mounted.
pub open spec fn adjusted_parts(path: Seq<Seq<u8>>, mount_root: Seq<Seq<u8>>) -> Seq<Seq<u8>> {
    if mount_root == root_dir() {
        path
    } else {
        match stripped(path, mount_root) {
            Some(rest) => joined(root_dir(), rest),
            None => path,
        }
    }
}

/// The text of the cgroup path of the process relative to the part of the hierarchy that
/// is mounted.
pub open spec fn adjusted(path: Seq<u8>, mount_root: Seq<u8>) -> Seq<u8> {
    if parts_of(mount_root) == root_dir() {
        path
    } else {
        match stripped_text(path, mount_root) {
            Some(rest) => join_text(seq![SLASH], rest),
            None => path,
        }
    }
}

/// The parts of a directory below `base`, by its path from a root that `base` stands for.
pub open spec fn below_parts(base: Seq<Seq<u8>>, rel: Seq<Seq<u8>>) -> Seq<Seq<u8>> {
    let rest = match stripped(rel, root_dir()) {
        Some(rest) => rest,
        None => rel,
    };
    if rest.len() == 0 {
        base
    } else {
        joined(base, rest)
    }
}

/// The text of a directory below `base`, by its path from a root that `base` stands for.
pub open spec fn below(base: Seq<u8>, rel: Seq<u8>) -> Seq<u8> {
    let rest = match stripped_text(rel, seq![SLASH]) {
        Some(rest) => rest,
        None => rel,
    };
    if rest.len() == 0 {
        base
    } else {
        join_text(base, rest)
    }
}

/// The first unified hierarchy that is mounted exactly at `root`.
pub open spec fn unified_mount(mounts: Seq<MountView>, root: Seq<Seq<u8>>) -> Option<MountView>
    decreases mounts.len(),
{
    if mounts.len() == 0 {
        None
    } else if mounts[0].fstype == CgroupVersion::V2 && parts_of(mounts[0].mount_point) == root {
        Some(mounts[0])
    } else {
        unified_mount(mounts.drop_first(), root)
    }
}

/// The first v1 hierarchy whose options name the controller.
pub open spec fn controller_mount(mounts: Seq<MountView>, controller: Seq<char>) -> Option<
    MountView,
>
    decreases mounts.len(),
{
    if mounts.len() == 0 {
        None
    } else if mounts[0].fstype == CgroupVersion::V1 && mounts[0].controllers.contains(controller) {
        Some(mounts[0])
    } else {
        controller_mount(mounts.drop_first(), controller)
    }
}

/// The path of the process in the hierarchy of a v1 controller, or the root if it is
/// not known.
pub open spec fn membership_path(cgroup: SelfView, controller: Seq<char>) -> Seq<u8> {
    match cgroup {
        SelfView::V1(map) => if map.dom().contains(controller) {
            map[controller]
        } else {
            seq![SLASH]
        },
        SelfView::V2(_) => seq![SLASH],
    }
}

/// The directory of a v1 controller under `root`. Its own directory there is named
/// like its mount point, wherever that lies.
pub open spec fn controller_dir(
    mounts: Seq<MountView>,
    cgroup: SelfView,
    controller: Seq<char>,
    root: Seq<u8>,
) -> Option<Seq<u8>> {
    match controller_mount(mounts, controller) {
        None => None,
        Some(m) => match name_of(parts_of(m.mount_point)) {
            None => None,
            Some(name) => Some(
                below(
                    join_text(root, name),
                    adjusted(membership_path(cgroup, controller), m.mount_root),
                ),
            ),
        },
    }
}

/// Where the mount table and the memberships say that the controllers are, if they
/// say. A unified hierarchy mounted at `root` decides; else the v1 memory hierarchy
/// does, with a conventional name for a CPU directory that cannot be located.
pub open spec fn located(
    mounts: Seq<MountView>,
    cgroup: SelfView,
    root: Seq<u8>,
) -> Option<PathsView> {
    match unified_mount(mounts, parts_of(root)) {
        Some(m) => {
            let rel = match cgroup {
                SelfView::V2(path) => adjusted(path, m.mount_root),
                SelfView::V1(_) => seq![SLASH],
            };
            let dir = below(root, rel);
            Some(PathsView { version: CgroupVersion::V2, memory_dir: dir, cpu_dir: dir })
        },
        None => match controller_dir(mounts, cgroup, "memory"@, root) {
            None => None,
            Some(memory_dir) => Some(
                PathsView {
                    version: CgroupVersion::V1,
                    memory_dir,
                    cpu_dir: match controller_dir(mounts, cgroup, "cpu"@, root) {
                        Some(dir) => dir,
                        None => file_in(root, "cpu,cpuacct"@),
                    },
                },
            ),
        },
    }
}

proof fn lemma_root_parts()
    ensures
        parts_of(seq![SLASH]) == root_dir(),
{
    rest_has_the_parts_left(seq![SLASH], 1);
    lemma_lead(seq![SLASH]);
    lemma_lead(text_after(seq![SLASH], 1));
    let p = parts_of(seq![SLASH]);
    assert(seq![SLASH].skip(1) == Seq::<u8>::empty());
    assert(text_after(seq![SLASH], 1) == Seq::<u8>::empty());
    assert(p.skip(1).len() == 0);
    assert(p == root_dir());
}

/// The text of an adjusted path has its parts.
proof fn lemma_adjusted_parts(path: Seq<u8>, mount_root: Seq<u8>)
    ensures
        parts_of(adjusted(path, mount_root)) == adjusted_parts(
            parts_of(path),
            parts_of(mount_root),
        ),
{
    lemma_root_parts();
    if let Some(rest) = stripped_text(path, mount_root) {
        rest_has_the_parts_left(path, parts_of(mount_root).len());
        lemma_join(seq![SLASH], rest);
    }
}

/// The text of a directory below another has its parts.
proof fn lemma_below_parts(base: Seq<u8>, rel: Seq<u8>)
    ensures
        parts_of(below(base, rel)) == below_parts(parts_of(base), parts_of(rel)),
{
    lemma_root_parts();
    let rest = match stripped_text(rel, seq![SLASH]) {
        Some(rest) => rest,
        None => rel,
    };
    if stripped_text(rel, seq![SLASH]) is Some {
        rest_has_the_parts_left(rel, 1);
    }
    lemma_lead(rest);
    lemma_join(base, rest);
}

/// Whether no part but the first is the root.
pub open spec fn rooted_first(parts: Seq<Seq<u8>>) -> bool {
    forall|i: int| 0 < i < parts.len() ==> #[trigger] parts[i] != root_part()
}

proof fn lemma_parts_rooted_first(s: Seq<u8>)
    ensures
        rooted_first(parts_of(s)),
{
    assert forall|i: int| 0 < i < parts_of(s).len() implies #[trigger] parts_of(s)[i]
        != root_part() by {
        root_comes_first(s, i);
    }
}

proof fn lemma_below(base: Seq<u8>, rel: Seq<u8>)
    requires
        base.len() > 0,
    ensures
        ({
            let n = parts_of(base).len();
            let dir = parts_of(below(base, rel));
            dir.len() >= n && dir.take(n as int) == parts_of(base)
        }),
{
    let top = parts_of(base);
    let below = parts_of(rel);
    lemma_lead(base);
    lemma_below_parts(base, rel);
    lemma_parts_rooted_first(rel);
    let rest = match stripped(below, root_dir()) {
        Some(rest) => rest,
        None => below,
    };
    if below.len() > 0 && below[0] == root_part() {
        assert(below.take(1) == root_dir());
        assert(rest == below.skip(1));
        if rest.len() > 0 {
            assert(rest[0] == below[1]);
        }
    } else if stripped(below, root_dir()) is Some {
        assert(below.take(1)[0] == root_dir()[0]);
    }
    assert(below_parts(top, below).take(top.len() as int) == top);
}

/// The conventional name of the CPU directory is a relative path.
proof fn lemma_cpu_name_is_relative()
    ensures
        !absolute(named("cpu,cpuacct"@)),
{
    let name = "cpu,cpuacct"@;
    reveal_strlit("cpu,cpuacct");
    let bytes = encode_utf8(name);
    assert(name[0] == 'c');
    assert(bytes[0] == leading_byte_width_1(99));
    assert(99u32 & 0x7f == 99) by (bit_vector);
    lemma_lead(bytes);
}

/// The configured root is where everything is looked for: whatever the mount table says,
/// the directories that are located lie under it. The hierarchy is the unified one
/// exactly if that is what is mounted there.
pub proof fn located_under_the_root(mounts: Seq<MountView>, cgroup: SelfView, root: Seq<u8>)
    requires
        root.len() > 0,
        located(mounts, cgroup, root) is Some,
    ensures
        ({
            let top = parts_of(root);
            let n = top.len() as int;
            let paths = located(mounts, cgroup, root)->0;
            let memory_dir = parts_of(paths.memory_dir);
            let cpu_dir = parts_of(paths.cpu_dir);
            &&& memory_dir.len() >= n && memory_dir.take(n) == top
            &&& cpu_dir.len() >= n && cpu_dir.take(n) == top
            &&& paths.version == CgroupVersion::V2 <==> unified_mount(mounts, top) is Some
        }),
{
    let top = parts_of(root);
    let n = top.len() as int;
    match unified_mount(mounts, top) {
        Some(m) => {
            let rel = match cgroup {
                SelfView::V2(path) => adjusted(path, m.mount_root),
                SelfView::V1(_) => seq![SLASH],
            };
            lemma_below(root, rel);
        },
        None => {
            lemma_controller_dir(mounts, cgroup, "memory"@, root);
            if controller_dir(mounts, cgroup, "cpu"@, root) is Some {
                lemma_controller_dir(mounts, cgroup, "cpu"@, root);
            } else {
                let name = encode_utf8("cpu,cpuacct"@);
                lemma_cpu_name_is_relative();
                lemma_lead(root);
                lemma_join(root, name);
                assert(joined(top, parts_of(name)).take(n) == top);
            }
        },
    }
}

proof fn lemma_controller_dir(
    mounts: Seq<MountView>,
    cgroup: SelfView,
    controller: Seq<char>,
    root: Seq<u8>,
)
    requires
        root.len() > 0,
        controller_dir(mounts, cgroup, controller, root) is Some,
    ensures
        ({
            let top = parts_of(root);
            let n = top.len() as int;
            let dir = parts_of(controller_dir(mounts, cgroup, controller, root)->0);
            dir.len() >= n && dir.take(n) == top
        }),
{
    let top = parts_of(root);
    let n = top.len() as int;
    let m = controller_mount(mounts, controller)->0;
    let name = name_of(parts_of(m.mount_point))->0;
    name_is_a_path(m.mount_point);
    let base = join_text(root, name);
    lemma_lead(root);
    lemma_join(root, name);
    assert(parts_of(base) == top + seq![name]);
    lemma_lead(base);
    let rel = adjusted(membership_path(cgroup, controller), m.mount_root);
    lemma_below(base, rel);
    let dir = parts_of(below(base, rel));
    assert(dir.take(n) == dir.take(parts_of(base).len() as int).take(n));
    assert(parts_of(base).take(n) == top);
}

/// The text of the path of a file in a directory.
pub open spec fn file_in(dir: Seq<u8>, name: Seq<char>) -> Seq<u8> {
    join_text(dir, encode_utf8(name))
}

/// `exists` can say of the path that there is a file (`found`) or that there is none.
pub open spec fn probed<E: Fn(&UnixPath) -> bool>(present: E, path: Seq<u8>, found: bool) -> bool {
    exists|p: &UnixPath| p.bytes@ == path && #[trigger] call_ensures(present, (p,), found)
}

/// `read` can give this answer for the path.
pub open spec fn answered<T, R: Fn(&UnixPath) -> T>(read: R, path: Seq<u8>, answer: T) -> bool {
    exists|p: &UnixPath| p.bytes@ == path && #[trigger] call_ensures(read, (p,), answer)
}

/// The path may be asked about.
pub open spec fn askable<T, R: Fn(&UnixPath) -> T>(read: R, path: Seq<u8>) -> bool {
    forall|p: &UnixPath| p.bytes@ == path ==> #[trigger] call_requires(read, (p,))
}

/// Strip the mount root from an absolute cgroup path: when only a subtree of the
/// hierarchy is mounted, the path is relative to that subtree.
pub fn adjust(cgroup_path: &UnixPath, mount_root: &UnixPath) -> (p: UnixPath)
    ensures
        p.bytes@ == adjusted(cgroup_path.bytes@, mount_root.bytes@),
        p.parts() == adjusted_parts(cgroup_path.parts(), mount_root.parts()),
{
    proof {
        lemma_adjusted_parts(cgroup_path.bytes@, mount_root.bytes@);
    }
    let root = UnixPath::root();
    if mount_root.same_as(&root) {
        return cgroup_path.copy();
    }
    match cgroup_path.strip_prefix(mount_root) {
        Some(rest) => root.join(&rest),
        None => cgroup_path.copy(),
    }
}

/// Join a cgroup path, which looks absolute, onto a base directory. The root yields
/// the base unchanged.
pub fn join_rel(base: &UnixPath, rel: &UnixPath) -> (p: UnixPath)
    ensures
        p.bytes@ == below(base.bytes@, rel.bytes@),
        p.parts() == below_parts(base.parts(), rel.parts()),
{
    proof {
        lemma_below_parts(base.bytes@, rel.bytes@);
    }
    let root = UnixPath::root();
    let rest = match rel.strip_prefix(&root) {
        Some(rest) => rest,
        None => rel.copy(),
    };
    if rest.bytes.len() == 0 {
        base.copy()
    } else {
        base.join(&rest)
    }
}

/// Whether one of the options is the controller.
fn names_controller(controllers: &Vec<String>, controller: &str) -> (r: bool)
    ensures
        r == strings(controllers@).contains(controller@),
{
    let mut i: usize = 0;
    while i < controllers.len()
        invariant
            i <= controllers@.len(),
            forall|j: int| 0 <= j < i ==> strings(controllers@)[j] != controller@,
        decreases controllers@.len() - i,
    {
        let option = chars_of(controllers[i].as_str());
        if same(option.as_slice(), controller) {
            assert(strings(controllers@)[i as int] == controller@);
            return true;
        }
        i = i + 1;
    }
    false
}

/// The index of the first unified hierarchy mounted exactly at `root`.
fn find_unified(mounts: &Vec<CgroupMount>, root: &UnixPath) -> (r: Option<usize>)
    ensures
        r is Some <==> unified_mount(mount_views(mounts@), root.parts()) is Some,
        r matches Some(i) ==> i < mounts@.len() && unified_mount(mount_views(mounts@), root.parts())
            == Some(mounts@[i as int]@),
{
    let mut i: usize = 0;
    let ghost all = mount_views(mounts@);
    assert(all.skip(0) == all);
    while i < mounts.len()
        invariant
            i <= mounts@.len(),
            all == mount_views(mounts@),
            unified_mount(all, root.parts()) == unified_mount(all.skip(i as int), root.parts()),
        decreases mounts@.len() - i,
    {
        assert(all.skip(i as int)[0] == mounts@[i as int]@);
        if matches!(mounts[i].fstype, CgroupVersion::V2) && mounts[i].mount_point.same_as(root) {
            return Some(i);
        }
        assert(all.skip(i as int).drop_first() == all.skip(i + 1));
        i = i + 1;
    }
    None
}

/// The index of the first v1 hierarchy whose options name the controller.
fn find_controller(mounts: &Vec<CgroupMount>, controller: &str) -> (r: Option<usize>)
    ensures
        r is Some <==> controller_mount(mount_views(mounts@), controller@) is Some,
        r matches Some(i) ==> i < mounts@.len() && controller_mount(
            mount_views(mounts@),
            controller@,
        ) == Some(mounts@[i as int]@),
{
    let mut i: usize = 0;
    let ghost all = mount_views(mounts@);
    assert(all.skip(0) == all);
    while i < mounts.len()
        invariant
            i <= mounts@.len(),
            all == mount_views(mounts@),
            controller_mount(all, controller@) == controller_mount(all.skip(i as int), controller@),
        decreases mounts@.len() - i,
    {
        assert(all.skip(i as int)[0] == mounts@[i as int]@);
        if matches!(mounts[i].fstype, CgroupVersion::V1) && names_controller(
            &mounts[i].controllers,
            controller,
        ) {
            return Some(i);
        }
        assert(all.skip(i as int).drop_first() == all.skip(i + 1));
        i = i + 1;
    }
    None
}

/// Locate the directory of a v1 controller.
pub fn v1_controller_dir(
    mounts: &Vec<CgroupMount>,
    self_cg: &SelfCgroup,
    controller: &str,
    cgroup_root: &UnixPath,
) -> (r: Option<UnixPath>)
    ensures
        r is Some <==> controller_dir(
            mount_views(mounts@),
            self_cg@,
            controller@,
            cgroup_root.bytes@,
        ) is Some,
        r matches Some(p) ==> controller_dir(
            mount_views(mounts@),
            self_cg@,
            controller@,
            cgroup_root.bytes@,
        ) == Some(p.bytes@),
{
    let i: usize = match find_controller(mounts, controller) {
        Some(i) => i,
        None => {
            return None;
        },
    };
    let subdir = match mounts[i].mount_point.file_name() {
        Some(name) => name,
        None => {
            return None;
        },
    };
    let rel = match self_cg {
        SelfCgroup::V1 { by_controller } => match by_controller.get(controller) {
            Some(p) => p.copy(),
            None => UnixPath::root(),
        },
        SelfCgroup::V2 { .. } => UnixPath::root(),
    };
    assert(rel.bytes@ == membership_path(self_cg@, controller@));
    let rel = adjust(&rel, &mounts[i].mount_root);
    Some(join_rel(&cgroup_root.join(&subdir), &rel))
}

/// Locate the controllers from the mount table and the memberships.
pub fn locate(mounts: &Vec<CgroupMount>, self_cg: &SelfCgroup, cgroup_root: &UnixPath) -> (r:
    Option<CgroupPaths>)
    ensures
        r is Some <==> located(mount_views(mounts@), self_cg@, cgroup_root.bytes@) is Some,
        r matches Some(p) ==> located(mount_views(mounts@), self_cg@, cgroup_root.bytes@) == Some(
            p@,
        ),
{
    if let Some(i) = find_unified(mounts, cgroup_root) {
        let rel = match self_cg {
            SelfCgroup::V2 { path } => adjust(path, &mounts[i].mount_root),
            SelfCgroup::V1 { .. } => UnixPath::root(),
        };
        let dir = join_rel(cgroup_root, &rel);
        return Some(
            CgroupPaths { version: CgroupVersion::V2, memory_dir: dir.copy(), cpu_dir: dir },
        );
    }
    let memory_dir = match v1_controller_dir(mounts, self_cg, "memory", cgroup_root) {
        Some(dir) => dir,
        None => {
            return None;
        },
    };
    let cpu_dir = match v1_controller_dir(mounts, self_cg, "cpu", cgroup_root) {
        Some(dir) => dir,
        // Rather guess the conventional name than fail altogether.
        None => cgroup_root.join(&UnixPath::new("cpu,cpuacct")),
    };
    Some(CgroupPaths { version: CgroupVersion::V1, memory_dir, cpu_dir })
}

/// The path of a file in a directory.
fn file_path(dir: &UnixPath, name: &str) -> (p: UnixPath)
    ensures
        p.bytes@ == file_in(dir.bytes@, name@),
        p.parts() == joined(dir.parts(), named(name@)),
{
    dir.join(&UnixPath::new(name))
}

/// v2 if `cgroup.controllers` exists under `root`, else v1.
pub fn detect<E: Fn(&UnixPath) -> bool>(root: &UnixPath, present: &E) -> (v: CgroupVersion)
    requires
        forall|p: &UnixPath| call_requires(*present, (p,)),
    ensures
        probed(
            *present,
            file_in(root.bytes@, "cgroup.controllers"@),
            v == CgroupVersion::V2,
        ),
{
    let path = file_path(root, "cgroup.controllers");
    if present(&path) {
        CgroupVersion::V2
    } else {
        CgroupVersion::V1
    }
}

/// Whether `r` is what the heuristics make of the files that there are: the
/// conventional unified layout, the conventional v1 layout, or every controller
/// directly under `root`.
pub open spec fn fell_back<E: Fn(&UnixPath) -> bool>(
    present: E,
    root: &UnixPath,
    r: CgroupPaths,
) -> bool {
    let controllers = file_in(root.bytes@, "cgroup.controllers"@);
    let limit = file_in(file_in(root.bytes@, "memory"@), "memory.limit_in_bytes"@);
    let flat = r.memory_dir.bytes@ == root.bytes@ && r.cpu_dir.bytes@ == root.bytes@;
    ||| {
        &&& probed(present, controllers, true)
        &&& r.version == CgroupVersion::V2
        &&& flat
    }
    ||| {
        &&& probed(present, controllers, false)
        &&& probed(present, limit, true)
        &&& r.version == CgroupVersion::V1
        &&& r.memory_dir.bytes@ == file_in(root.bytes@, "memory"@)
        &&& r.cpu_dir.bytes@ == file_in(root.bytes@, "cpu,cpuacct"@)
    }
    ||| {
        &&& probed(present, controllers, false)
        &&& probed(present, limit, false)
        &&& probed(present, controllers, r.version == CgroupVersion::V2)
        &&& flat
    }
}

/// Heuristics for when the mount table says nothing usable.
pub fn resolve_fallback<E: Fn(&UnixPath) -> bool>(cgroup_root: &UnixPath, present: &E) -> (r:
    CgroupPaths)
    requires
        forall|p: &UnixPath| call_requires(*present, (p,)),
    ensures
        fell_back(*present, cgroup_root, r),
{
    let controllers = file_path(cgroup_root, "cgroup.controllers");
    if present(&controllers) {
        return CgroupPaths {
            version: CgroupVersion::V2,
            memory_dir: cgroup_root.copy(),
            cpu_dir: cgroup_root.copy(),
        };
    }
    let mem_sub = file_path(cgroup_root, "memory");
    let limit = file_path(&mem_sub, "memory.limit_in_bytes");
    if present(&limit) {
        return CgroupPaths {
            version: CgroupVersion::V1,
            memory_dir: mem_sub,
            cpu_dir: file_path(cgroup_root, "cpu,cpuacct"),
        };
    }
    CgroupPaths::flat(cgroup_root, present)
}

impl CgroupPaths {
    /// The layout where every controller lives directly under `root`.
    pub fn flat<E: Fn(&UnixPath) -> bool>(root: &UnixPath, present: &E) -> (r: CgroupPaths)
        requires
            forall|p: &UnixPath| call_requires(*present, (p,)),
        ensures
            probed(
                *present,
                file_in(root.bytes@, "cgroup.controllers"@),
                r.version == CgroupVersion::V2,
            ),
            r.memory_dir.bytes@ == root.bytes@,
            r.cpu_dir.bytes@ == root.bytes@,
    {
        CgroupPaths {
            version: detect(root, present),
            memory_dir: root.copy(),
            cpu_dir: root.copy(),
        }
    }

    /// Locate the controllers under `cgroup_root`: from the mount table and the
    /// memberships of the process, or by heuristics where those say nothing.
    pub fn resolve<X, R: Fn(&UnixPath) -> Result<String, X>, E: Fn(&UnixPath) -> bool>(
        cgroup_root: &UnixPath,
        proc: &ProcSource,
        read: &R,
        present: &E,
    ) -> (r: CgroupPaths)
        requires
            forall|p: &UnixPath| call_requires(*read, (p,)),
            forall|p: &UnixPath| call_requires(*present, (p,)),
        ensures
            exists|table: Result<String, X>, memberships: Result<String, X>|
                {
                    &&& #[trigger] answered(*read, proc.mountinfo.bytes@, table)
                    &&& #[trigger] answered(*read, proc.self_cgroup.bytes@, memberships)
                    &&& match located(
                        mounts_of(lines_of(content_or_empty(table))),
                        self_cgroup_of(lines_of(content_or_empty(memberships)), Map::empty()),
                        cgroup_root.bytes@,
                    ) {
                        Some(paths) => r@ == paths,
                        None => fell_back(*present, cgroup_root, r),
                    }
                },
    {
        let table = proc.read_mountinfo(read);
        let ghost t = choose|t: Result<String, X>|
            call_ensures(*read, (&proc.mountinfo,), t) && table@ == #[trigger] content_or_empty(t);
        assert(answered(*read, proc.mountinfo.bytes@, t));
        let memberships = proc.read_self_cgroup(read);
        let ghost m = choose|m: Result<String, X>|
            call_ensures(*read, (&proc.self_cgroup,), m) && memberships@
                == #[trigger] content_or_empty(m);
        assert(answered(*read, proc.self_cgroup.bytes@, m));
        let mounts = parse_mountinfo(table.as_str());
        let self_cg = parse_self_cgroup(memberships.as_str());
        match locate(&mounts, &self_cg, cgroup_root) {
            Some(paths) => paths,
            None => resolve_fallback(cgroup_root, present),
        }
    }
}

/// Memory usage relative to the limit.
#[derive(Clone, Copy, PartialEq, Eq, Debug, Structural)]
pub struct MemorySample {
    pub current: u64,
    pub max: Option<u64>,
}

/// Whether `ratio` is the usage relative to the limit. Any usage of a zero limit is
/// infinitely much of it; no usage is none.
pub open spec fn is_ratio(current: u64, max: u64, ratio: Binary64) -> bool {
    if max == 0 {
        ratio.bits == if current > 0 {
            INFINITY_BITS
        } else {
            0
        }
    } else {
        is_quotient(nearest(current as nat), nearest(max as nat), ratio)
    }
}

impl MemorySample {
    /// `current / max`, or `None` when there is no limit.
    pub fn ratio(&self) -> (r: Option<Binary64>)
        ensures
            r is Some <==> self.max is Some,
            r matches Some(ratio) ==> is_ratio(self.current, self.max->0, ratio),
    {
        match self.max {
            None => None,
            Some(max) => if max == 0 {
                if self.current > 0 {
                    Some(Binary64::infinity())
                } else {
                    Some(Binary64::zero())
                }
            } else {
                Some(Binary64::from_u64(self.current).div(Binary64::from_u64(max)))
            },
        }
    }
}

/// The largest whole number that a 64-bit count rounds to is finite, and every count
/// but zero rounds to a positive number, in order.
proof fn lemma_nearest(small: u64, large: u64, a: Binary64, b: Binary64)
    requires
        0 < small <= large,
        rounds_to(small as nat * pow2(1074), 1, a.bits as int),
        rounds_to(large as nat * pow2(1074), 1, b.bits as int),
    ensures
        0 < a.bits <= b.bits,
{
    let p = pow2(1074) as int;
    vstd::arithmetic::power2::lemma_pow2_pos(1074);
    assert(small * p <= large * p) by (nonlinear_arith)
        requires
            small <= large,
            p > 0,
    ;
    rounding_is_monotone((small * p) as nat, (large * p) as nat, 1, a.bits as int, b.bits as int);
    assert(small * p >= 1) by (nonlinear_arith)
        requires
            small >= 1,
            p >= 1,
    ;
    lemma_magnitude_small();
}

/// A target that has used up its memory limit is over every threshold that can be
/// configured, whatever the limit is.
pub proof fn exhausted_limit_is_over_every_threshold(
    current: u64,
    max: u64,
    ratio: Binary64,
    threshold: Binary64,
)
    requires
        current >= max,
        current > 0,
        is_ratio(current, max, ratio),
        threshold.bits <= 0x3ff0_0000_0000_0000,
    ensures
        ratio.at_least(threshold),
{
    let one = Binary64 { bits: 0x3ff0_0000_0000_0000 };
    if threshold.bits < one.bits {
        lemma_magnitude_increases(threshold.bits as int, one.bits as int);
    }
    if max == 0 {
        lemma_magnitude_increases(one.bits as int, INFINITY_BITS as int);
    } else {
        let a = nearest(current as nat);
        let b = nearest(max as nat);
        nearest_is_finite(current);
        nearest_is_finite(max);
        lemma_nearest(max, current, b, a);
        quotient_at_least_one(a, b, ratio, one);
    }
}

/// The `memory.limit_in_bytes` of a v1 cgroup without a limit: the largest multiple of
/// a page.
pub const V1_UNLIMITED_SENTINEL: u64 = 0x7fff_ffff_ffff_f000;

/// The limit that `memory.max` states: none for `max` or for what is no number.
pub open spec fn mem_max_of(s: Seq<char>) -> Option<nat> {
    let t = trim_of(s);
    if t == "max"@ {
        None
    } else {
        number_of(t, u64::MAX as nat)
    }
}

/// Parse the `memory.max` of a v2 cgroup.
pub fn parse_mem_max_v2(s: &str) -> (r: Option<u64>)
    ensures
        as_nat(r) == mem_max_of(s@),
{
    let chars = chars_of(s);
    let t = trim(chars.as_slice());
    if same(t, "max") {
        None
    } else {
        parse_u64(t)
    }
}

/// The limit that `memory.limit_in_bytes` states: none from the sentinel on.
pub open spec fn v1_limit(raw: u64) -> Option<u64> {
    if raw >= V1_UNLIMITED_SENTINEL {
        None
    } else {
        Some(raw)
    }
}

/// Map the `memory.limit_in_bytes` of a v1 cgroup to an optional limit.
pub fn v1_limit_to_max(raw: u64) -> (r: Option<u64>)
    ensures
        r == v1_limit(raw),
{
    if raw >= V1_UNLIMITED_SENTINEL {
        None
    } else {
        Some(raw)
    }
}

/// Why a number could not be read from a file.
#[derive(PartialEq, Eq, Debug)]
pub enum ReadError<X> {
    /// The file could not be read.
    Io(X),
    /// The file holds no whole number.
    NotAnInteger,
}

/// What reading a whole number comes to, given what reading the file came to.
pub open spec fn integer_read<X>(answer: Result<String, X>) -> Result<u64, ReadError<X>> {
    match answer {
        Err(e) => Err(ReadError::Io(e)),
        Ok(text) => match number_of(trim_of(text@), u64::MAX as nat) {
            Some(n) => Ok(n as u64),
            None => Err(ReadError::NotAnInteger),
        },
    }
}

/// The whole number that the content of a file is.
pub fn integer_from<X>(answer: Result<String, X>) -> (r: Result<u64, ReadError<X>>)
    ensures
        r == integer_read(answer),
{
    match answer {
        Err(e) => Err(ReadError::Io(e)),
        Ok(text) => {
            let chars = chars_of(text.as_str());
            match parse_u64(trim(chars.as_slice())) {
                Some(n) => Ok(n),
                None => Err(ReadError::NotAnInteger),
            }
        },
    }
}

/// The file that states the current memory usage.
pub open spec fn usage_file(version: CgroupVersion) -> Seq<char> {
    match version {
        CgroupVersion::V2 => "memory.current"@,
        CgroupVersion::V1 => "memory.usage_in_bytes"@,
    }
}

/// Read the current memory usage.
pub fn read_memory_current<X, R: Fn(&UnixPath) -> Result<String, X>>(
    p: &CgroupPaths,
    read: &R,
) -> (r: Result<u64, ReadError<X>>)
    requires
        askable(*read, file_in(p.memory_dir.bytes@, usage_file(p.version))),
    ensures
        exists|answer: Result<String, X>|
            {
                &&& #[trigger] answered(
                    *read,
                    file_in(p.memory_dir.bytes@, usage_file(p.version)),
                    answer,
                )
                &&& r == integer_read(answer)
            },
{
    let path = match p.version {
        CgroupVersion::V2 => file_path(&p.memory_dir, "memory.current"),
        CgroupVersion::V1 => file_path(&p.memory_dir, "memory.usage_in_bytes"),
    };
    let answer = read(&path);
    assert(answered(*read, file_in(p.memory_dir.bytes@, usage_file(p.version)), answer));
    integer_from(answer)
}

/// The file that states the memory limit.
pub open spec fn limit_file(version: CgroupVersion) -> Seq<char> {
    match version {
        CgroupVersion::V2 => "memory.max"@,
        CgroupVersion::V1 => "memory.limit_in_bytes"@,
    }
}

/// What reading the memory limit comes to, given what reading its file came to.
pub open spec fn limit_read<X>(version: CgroupVersion, answer: Result<String, X>) -> Result<
    Option<nat>,
    ReadError<X>,
> {
    match version {
        CgroupVersion::V2 => match answer {
            Err(e) => Err(ReadError::Io(e)),
            Ok(text) => Ok(mem_max_of(text@)),
        },
        CgroupVersion::V1 => match integer_read(answer) {
            Err(e) => Err(e),
            Ok(raw) => Ok(as_nat(v1_limit(raw))),
        },
    }
}

/// An optional limit that was read, as a mathematical number.
pub open spec fn limit_as_nat<E>(r: Result<Option<u64>, E>) -> Result<Option<nat>, E> {
    match r {
        Ok(n) => Ok(as_nat(n)),
        Err(e) => Err(e),
    }
}

/// The memory limit that the content of its file states.
pub fn limit_from<X>(version: CgroupVersion, answer: Result<String, X>) -> (r: Result<
    Option<u64>,
    ReadError<X>,
>)
    ensures
        limit_as_nat(r) == limit_read(version, answer),
{
    match version {
        CgroupVersion::V2 => match answer {
            Err(e) => Err(ReadError::Io(e)),
            Ok(text) => Ok(parse_mem_max_v2(text.as_str())),
        },
        CgroupVersion::V1 => match integer_from(answer) {
            Err(e) => Err(e),
            Ok(raw) => Ok(v1_limit_to_max(raw)),
        },
    }
}

/// Read the memory limit; `None` when there is none.
pub fn read_memory_max<X, R: Fn(&UnixPath) -> Result<String, X>>(p: &CgroupPaths, read: &R) -> (r:
    Result<Option<u64>, ReadError<X>>)
    requires
        askable(*read, file_in(p.memory_dir.bytes@, limit_file(p.version))),
    ensures
        exists|answer: Result<String, X>|
            {
                &&& #[trigger] answered(
                    *read,
                    file_in(p.memory_dir.bytes@, limit_file(p.version)),
                    answer,
                )
                &&& limit_as_nat(r) == limit_read(p.version, answer)
            },
{
    let path = match p.version {
        CgroupVersion::V2 => file_path(&p.memory_dir, "memory.max"),
        CgroupVersion::V1 => file_path(&p.memory_dir, "memory.limit_in_bytes"),
    };
    let answer = read(&path);
    assert(answered(*read, file_in(p.memory_dir.bytes@, limit_file(p.version)), answer));
    limit_from(p.version, answer)
}

/// Whether a quota and a period cap the CPU at all: only a pair of positive numbers does.
pub open spec fn caps(quota: Binary64, period: Binary64) -> bool {
    !quota.nan() && !period.nan() && quota.scaled() > 0 && period.scaled() > 0
}

/// The share of the CPU that a quota per period is.
pub fn quota_share(quota: Binary64, period: Binary64) -> (r: Option<Binary64>)
    ensures
        r is Some <==> caps(quota, period),
        r matches Some(share) ==> is_quotient(quota, period, share),
{
    let zero = Binary64::zero();
    let quota_positive = quota.ge(zero) && !zero.ge(quota);
    let period_positive = period.ge(zero) && !zero.ge(period);
    if quota_positive && period_positive {
        Some(quota.div(period))
    } else {
        None
    }
}

/// Whether `r` is the quota ratio that the words of `cpu.max` state, as far as
/// `number` reads them.
pub open spec fn is_cpu_max<N: Fn(&str) -> Option<Binary64>>(
    number: N,
    fields: Seq<Seq<char>>,
    r: Option<Binary64>,
) -> bool {
    if fields.len() < 2 {
        r is None
    } else {
        exists|period: Option<Binary64>|
            #[trigger] spelled(number, fields[1], period) && match period {
                None => r is None,
                Some(p) => if fields[0] == "max"@ {
                    r is None
                } else {
                    exists|quota: Option<Binary64>|
                        #[trigger] spelled(number, fields[0], quota) && match quota {
                            None => r is None,
                            Some(q) => (r is Some <==> caps(q, p)) && (r matches Some(share)
                                ==> is_quotient(q, p, share)),
                        }
                },
            }
    }
}

/// Parse the `cpu.max` of a v2 cgroup (`<quota|max> <period>`) into a quota ratio.
/// `number` reads a decimal number. `None` when uncapped, or without a valid pair of
/// positive numbers.
pub fn parse_cpu_max_v2<N: Fn(&str) -> Option<Binary64>>(s: &str, number: &N) -> (r: Option<
    Binary64,
>)
    requires
        forall|t: &str| call_requires(*number, (t,)),
    ensures
        is_cpu_max(*number, words_of(s@), r),
{
    let chars = chars_of(s);
    let fields = words(chars.as_slice());
    assert(texts(fields@).len() == fields@.len());
    if fields.len() < 2 {
        return None;
    }
    assert(fields@[0]@ == texts(fields@)[0]);
    assert(fields@[1]@ == texts(fields@)[1]);
    let word = text_of(fields[1]);
    let period = number(word.as_str());
    assert(spelled(*number, texts(fields@)[1], period));
    let period = match period {
        Some(p) => p,
        None => {
            return None;
        },
    };
    if same(fields[0], "max") {
        return None;
    }
    let word = text_of(fields[0]);
    let quota = number(word.as_str());
    assert(spelled(*number, texts(fields@)[0], quota));
    match quota {
        Some(q) => quota_share(q, period),
        None => None,
    }
}

/// The quota ratio of a v1 cgroup. A negative quota means uncapped.
pub fn v1_cpu_quota_ratio(quota_us: i64, period_us: i64) -> (r: Option<Binary64>)
    ensures
        r is Some <==> quota_us >= 0 && period_us > 0,
        r matches Some(share) ==> is_quotient(nearest(quota_us as nat), nearest(period_us as nat), share),
{
    if quota_us < 0 || period_us <= 0 {
        None
    } else {
        Some(Binary64::from_u64(quota_us as u64).div(Binary64::from_u64(period_us as u64)))
    }
}

/// The number that the content of a file spells, or `default` if it cannot be read or
/// spells none.
pub open spec fn setting_of<X>(content: Result<String, X>, default: int) -> int {
    match content {
        Ok(text) => match signed_number_of(trim_of(text@)) {
            Some(n) => n,
            None => default,
        },
        Err(_) => default,
    }
}

fn setting_from<X>(content: Result<String, X>, default: i64) -> (n: i64)
    ensures
        n == setting_of(content, default as int),
{
    match content {
        Ok(text) => {
            let chars = chars_of(text.as_str());
            match parse_i64(trim(chars.as_slice())) {
                Some(n) => n,
                None => default,
            }
        },
        Err(_) => default,
    }
}

/// Whether `r` is the quota ratio of a v1 cgroup with the given settings.
pub open spec fn is_v1_share(quota: int, period: int, r: Option<Binary64>) -> bool {
    &&& r is Some <==> quota >= 0 && period > 0
    &&& r matches Some(share) ==> is_quotient(nearest(quota as nat), nearest(period as nat), share)
}

/// Whether `r` is the configured CPU ceiling, as far as `read` and `number` read it.
pub open spec fn is_cpu_ceiling<
    X,
    R: Fn(&UnixPath) -> Result<String, X>,
    N: Fn(&str) -> Option<Binary64>,
>(read: R, number: N, p: CgroupPaths, r: Option<Binary64>) -> bool {
    match p.version {
        CgroupVersion::V2 => exists|content: Result<String, X>|
            #[trigger] answered(read, file_in(p.cpu_dir.bytes@, "cpu.max"@), content)
                && match content {
                Err(_) => r is None,
                Ok(text) => is_cpu_max(number, words_of(text@), r),
            },
        CgroupVersion::V1 => exists|quota: Result<String, X>, period: Result<String, X>|
            {
                &&& #[trigger] answered(
                    read,
                    file_in(p.cpu_dir.bytes@, "cpu.cfs_quota_us"@),
                    quota,
                )
                &&& #[trigger] answered(
                    read,
                    file_in(p.cpu_dir.bytes@, "cpu.cfs_period_us"@),
                    period,
                )
                &&& is_v1_share(setting_of(quota, -1), setting_of(period, 0), r)
            },
    }
}

/// Read the configured CPU ceiling, `quota / period`. `None` when uncapped, missing or
/// unreadable: the ceiling is for display and must never stop anything.
pub fn read_cpu<X, R: Fn(&UnixPath) -> Result<String, X>, N: Fn(&str) -> Option<Binary64>>(
    p: &CgroupPaths,
    read: &R,
    number: &N,
) -> (r: Option<Binary64>)
    requires
        forall|f: &UnixPath| call_requires(*read, (f,)),
        forall|t: &str| call_requires(*number, (t,)),
    ensures
        is_cpu_ceiling(*read, *number, *p, r),
{
    match p.version {
        CgroupVersion::V2 => {
            let path = file_path(&p.cpu_dir, "cpu.max");
            let content = read(&path);
            assert(answered(*read, file_in(p.cpu_dir.bytes@, "cpu.max"@), content));
            match content {
                Ok(text) => parse_cpu_max_v2(text.as_str(), number),
                Err(_) => None,
            }
        },
        CgroupVersion::V1 => {
            let path = file_path(&p.cpu_dir, "cpu.cfs_quota_us");
            let quota = read(&path);
            assert(answered(*read, file_in(p.cpu_dir.bytes@, "cpu.cfs_quota_us"@), quota));
            let quota: i64 = setting_from(quota, -1);
            let path = file_path(&p.cpu_dir, "cpu.cfs_period_us");
            let period = read(&path);
            assert(answered(*read, file_in(p.cpu_dir.bytes@, "cpu.cfs_period_us"@), period));
            let period: i64 = setting_from(period, 0);
            v1_cpu_quota_ratio(quota, period)
        },
    }
}

/// Memory usage triggers at the configured share of the limit. Usage at or above the exact
/// share is always over the threshold; usage below it never is, as far as there is any
/// number between the two.
pub proof fn memory_triggers_at_the_configured_share(
    current: u64,
    max: u64,
    ratio: Binary64,
    threshold: Binary64,
    between: Binary64,
)
    requires
        is_ratio(current, max, ratio),
        current <= 0x20_0000_0000_0000,
        0 < max <= 0x20_0000_0000_0000,
        threshold.bits <= INFINITY_BITS,
        between.bits <= INFINITY_BITS,
    ensures
        threshold.scaled() * max <= current * pow2(1074) ==> ratio.at_least(threshold),
        (between.scaled() < threshold.scaled() && between.scaled() * max >= current * pow2(1074))
            ==> !ratio.at_least(threshold),
{
    no_number_lies_between_a_quotient_and_its_rounding(
        current as nat,
        max as nat,
        ratio,
        threshold,
    );
    no_number_lies_between_a_quotient_and_its_rounding(current as nat, max as nat, ratio, between);
}

/// Any usage of a zero limit is over every threshold, and no usage of it is under every
/// positive one.
pub proof fn zero_limit_is_used_up_at_once(current: u64, ratio: Binary64, threshold: Binary64)
    requires
        is_ratio(current, 0, ratio),
        0 < threshold.bits < INFINITY_BITS,
    ensures
        ratio.at_least(threshold) <==> current > 0,
{
    lemma_magnitude_increases(0, threshold.bits as int);
    lemma_magnitude_increases(threshold.bits as int, INFINITY_BITS as int);
}

/// A v1 limit from the largest multiple of a page on is none; every smaller one is a limit
/// of just so many bytes.
pub proof fn v1_limits_below_the_sentinel_count(raw: u64)
    ensures
        v1_limit(raw) is None <==> raw >= 0x7fff_ffff_ffff_f000,
        v1_limit(raw) matches Some(limit) ==> limit == raw,
{
}

/// A limit reads as the number that the file states, with or without a line feed behind it;
/// `max` is none.
pub proof fn limits_read_back(n: u64)
    ensures
        mem_max_of(decimal(n as nat)) == Some(n as nat),
        mem_max_of(decimal(n as nat).push('\n')) == Some(n as nat),
        mem_max_of("max"@) is None,
{
    let d = decimal(n as nat);
    reveal_strlit("max");
    lemma_decimal(n as nat);
    decimal_reads_back(n as nat, u64::MAX as nat);
    assert(digit(d[0]) && digit(d.last()));
    lemma_trimmed(d);
    assert(trim_of(d.push('\n')) == d) by {
        assert(trim_start_of(d.push('\n')) == d.push('\n'));
        assert(d.push('\n').drop_last() == d);
        assert(trim_end_of(d) == d);
    }
    assert("max"@[0] == 'm');
    lemma_trimmed("max"@);
}

/// A whole number reads as what the file states, and a file that cannot be read is told
/// apart from one that holds no number.
pub proof fn usage_reads_back<X>(n: u64, text: String, failure: X)
    requires
        text@ == decimal(n as nat) || text@ == decimal(n as nat).push('\n'),
    ensures
        integer_read::<X>(Ok(text)) == Ok::<u64, ReadError<X>>(n),
        integer_read::<X>(Err(failure)) == Err::<u64, ReadError<X>>(ReadError::Io(failure)),
        limit_read::<X>(CgroupVersion::V2, Ok(text)) == Ok::<Option<nat>, ReadError<X>>(
            Some(n as nat),
        ),
        n < 0x7fff_ffff_ffff_f000 ==> limit_read::<X>(CgroupVersion::V1, Ok(text)) == Ok::<
            Option<nat>,
            ReadError<X>,
        >(Some(n as nat)),
        n >= 0x7fff_ffff_ffff_f000 ==> limit_read::<X>(CgroupVersion::V1, Ok(text)) == Ok::<
            Option<nat>,
            ReadError<X>,
        >(None),
{
    let d = decimal(n as nat);
    limits_read_back(n);
    lemma_decimal(n as nat);
    decimal_reads_back(n as nat, u64::MAX as nat);
    lemma_trimmed(d);
    assert(trim_of(d.push('\n')) == d) by {
        assert(trim_start_of(d.push('\n')) == d.push('\n'));
        assert(d.push('\n').drop_last() == d);
        assert(trim_end_of(d) == d);
    }
}

/// A quota caps the CPU only if it and its period are positive numbers.
pub proof fn only_positive_pairs_cap(quota: Binary64, period: Binary64)
    ensures
        caps(quota, period) <==> (!quota.nan() && !period.nan() && quota.scaled() > 0
            && period.scaled() > 0),
        quota.bits == 0 ==> !caps(quota, period),
        period.bits == 0 ==> !caps(quota, period),
{
    lemma_magnitude_small();
}

/// A v1 cgroup is uncapped with a negative quota or without a period; settings that cannot
/// be read leave it so.
pub proof fn v1_cpu_is_capped_by_its_settings<X>(quota: int, period: int, failure: X, r: Option<Binary64>)
    requires
        is_v1_share(quota, period, r),
    ensures
        r is Some <==> quota >= 0 && period > 0,
        setting_of::<X>(Err(failure), -1) == -1,
        r matches Some(share) ==> is_quotient(
            nearest(quota as nat),
            nearest(period as nat),
            share,
        ),
{
}

/// The membership of the process is followed below the root. Where the whole hierarchy is
/// mounted, or a part that the membership does not lie in, the directory is the root and the
/// membership behind it; where the membership lies in the part that is mounted, it is the
/// root and what follows that part.
pub proof fn membership_is_followed(root: Seq<u8>, path: Seq<u8>, mount_root: Seq<u8>)
    requires
        root.len() > 0,
        absolute(parts_of(path)),
        absolute(parts_of(mount_root)),
    ensures
        ({
            let dir = parts_of(below(root, adjusted(path, mount_root)));
            let member = parts_of(path);
            let mounted = parts_of(mount_root);
            let n = mounted.len() as int;
            &&& mounted == root_dir() ==> dir == parts_of(root) + member.skip(1)
            &&& (mounted != root_dir() && member.len() >= n && member.take(n) == mounted) ==> dir
                == parts_of(root) + member.skip(n)
            &&& (mounted != root_dir() && !(member.len() >= n && member.take(n) == mounted)) ==> dir
                == parts_of(root) + member.skip(1)
        }),
{
    let rel = adjusted(path, mount_root);
    let top = parts_of(root);
    let member = parts_of(path);
    let mounted = parts_of(mount_root);
    let n = mounted.len() as int;
    lemma_lead(root);
    lemma_adjusted_parts(path, mount_root);
    lemma_below_parts(root, rel);
    lemma_parts_rooted_first(path);
    lemma_parts_rooted_first(rel);
    let r = parts_of(rel);
    assert(member.take(1) == root_dir());
    if mounted != root_dir() && member.len() >= n && member.take(n) == mounted {
        let rest = member.skip(n);
        assert(rest.len() > 0 ==> rest[0] == member[n]);
        if rest.len() > 0 {
            part_is_no_dot(path, n);
        }
        assert(r == root_dir() + rest);
        assert(r.take(1) == root_dir());
        assert(r.skip(1) == rest);
        assert(top + rest == if rest.len() == 0 {
            top
        } else {
            top + rest
        });
    } else {
        assert(r == member);
        let rest = member.skip(1);
        assert(rest.len() > 0 ==> rest[0] == member[1]);
        if rest.len() > 0 {
            part_is_no_dot(path, 1);
        } else {
            assert(top + rest == top);
        }
    }
}

/// The unified hierarchy at the root holds both controllers in one directory: that of the
/// process's membership.
pub proof fn unified_hierarchy_holds_both_controllers(
    mounts: Seq<MountView>,
    path: Seq<u8>,
    root: Seq<u8>,
)
    requires
        unified_mount(mounts, parts_of(root)) is Some,
    ensures
        ({
            let m = unified_mount(mounts, parts_of(root))->0;
            let paths = located(mounts, SelfView::V2(path), root);
            &&& m.fstype == CgroupVersion::V2 && parts_of(m.mount_point) == parts_of(root)
            &&& paths is Some
            &&& paths->0.version == CgroupVersion::V2
            &&& paths->0.memory_dir == below(root, adjusted(path, m.mount_root))
            &&& paths->0.cpu_dir == paths->0.memory_dir
        }),
    decreases mounts.len(),
{
    if !(mounts[0].fstype == CgroupVersion::V2 && parts_of(mounts[0].mount_point) == parts_of(
        root,
    )) {
        let rest = mounts.drop_first();
        unified_hierarchy_holds_both_controllers(rest, path, root);
    }
}

/// The first mount that names a controller is the one that counts, and it is a v1 one.
pub proof fn first_mount_of_a_controller_counts(mounts: Seq<MountView>, controller: Seq<char>)
    ensures
        match controller_mount(mounts, controller) {
            Some(m) => exists|i: int|
                {
                    &&& 0 <= i < mounts.len() && #[trigger] mounts[i] == m
                    &&& m.fstype == CgroupVersion::V1 && m.controllers.contains(controller)
                    &&& forall|j: int|
                        0 <= j < i ==> (#[trigger] mounts[j]).fstype == CgroupVersion::V2
                            || !mounts[j].controllers.contains(controller)
                },
            None => forall|j: int|
                0 <= j < mounts.len() ==> (#[trigger] mounts[j]).fstype == CgroupVersion::V2
                    || !mounts[j].controllers.contains(controller),
        },
    decreases mounts.len(),
{
    if mounts.len() > 0 {
        if mounts[0].fstype == CgroupVersion::V1 && mounts[0].controllers.contains(controller) {
            assert(mounts[0] == controller_mount(mounts, controller)->0);
        } else {
            let rest = mounts.drop_first();
            first_mount_of_a_controller_counts(rest, controller);
            if controller_mount(mounts, controller) is Some {
                let m = controller_mount(mounts, controller)->0;
                let i = choose|i: int|
                    {
                        &&& 0 <= i < rest.len() && #[trigger] rest[i] == m
                        &&& m.fstype == CgroupVersion::V1 && m.controllers.contains(controller)
                        &&& forall|j: int|
                            0 <= j < i ==> (#[trigger] rest[j]).fstype == CgroupVersion::V2
                                || !rest[j].controllers.contains(controller)
                    };
                assert(mounts[i + 1] == m);
                assert forall|j: int| 0 <= j < i + 1 implies (#[trigger] mounts[j]).fstype
                    == CgroupVersion::V2 || !mounts[j].controllers.contains(controller) by {
                    if j > 0 {
                        assert(mounts[j] == rest[j - 1]);
                    }
                }
            } else {
                assert forall|j: int| 0 <= j < mounts.len() implies (#[trigger] mounts[j]).fstype
                    == CgroupVersion::V2 || !mounts[j].controllers.contains(controller) by {
                    if j > 0 {
                        assert(mounts[j] == rest[j - 1]);
                    }
                }
            }
        }
    }
}

/// Without a unified hierarchy at the root, each v1 controller is looked for on its own:
/// memory decides whether anything is found, and each directory goes by the mount and the
/// membership of its own controller.
pub proof fn v1_controllers_are_located_each_on_its_own(
    mounts: Seq<MountView>,
    map: Map<Seq<char>, Seq<u8>>,
    root: Seq<u8>,
)
    requires
        unified_mount(mounts, parts_of(root)) is None,
        map.dom().contains("memory"@),
        map.dom().contains("cpu"@),
    ensures
        ({
            let paths = located(mounts, SelfView::V1(map), root);
            let memory = controller_mount(mounts, "memory"@);
            let cpu = controller_mount(mounts, "cpu"@);
            &&& paths is Some <==> memory is Some && name_of(parts_of(memory->0.mount_point))
                is Some
            &&& paths matches Some(p) ==> {
                &&& p.version == CgroupVersion::V1
                &&& p.memory_dir == below(
                    join_text(root, name_of(parts_of(memory->0.mount_point))->0),
                    adjusted(map["memory"@], memory->0.mount_root),
                )
                &&& (cpu is Some && name_of(parts_of(cpu->0.mount_point)) is Some) ==> p.cpu_dir
                    == below(
                    join_text(root, name_of(parts_of(cpu->0.mount_point))->0),
                    adjusted(map["cpu"@], cpu->0.mount_root),
                )
                &&& !(cpu is Some && name_of(parts_of(cpu->0.mount_point)) is Some) ==> p.cpu_dir
                    == file_in(root, "cpu,cpuacct"@)
            }
        }),
{
}

/// The ceiling of a v2 cgroup is its quota per period, where both are positive numbers; `max`
/// is no ceiling.
pub proof fn v2_ceiling_is_quota_per_period<N: Fn(&str) -> Option<Binary64>>(
    number: N,
    fields: Seq<Seq<char>>,
    q: Binary64,
    p: Binary64,
    r: Option<Binary64>,
)
    requires
        consistent(number),
        fields.len() >= 2,
        spelled(number, fields[1], Some(p)),
        fields[0] != "max"@ ==> spelled(number, fields[0], Some(q)),
        is_cpu_max(number, fields, r),
    ensures
        fields[0] == "max"@ ==> r is None,
        fields[0] != "max"@ ==> {
            &&& r is Some <==> !q.nan() && !p.nan() && q.scaled() > 0 && p.scaled() > 0
            &&& r matches Some(share) ==> is_quotient(q, p, share)
        },
{
}

/// Where the mount table says nothing, the layout goes by the files that there are: the
/// unified one only with its controllers file, the v1 one only with its limit file, and
/// otherwise everything lies under the root itself.
pub proof fn fallback_goes_by_the_files<E: Fn(&UnixPath) -> bool>(
    present: E,
    root: &UnixPath,
    r: CgroupPaths,
)
    requires
        fell_back(present, root, r),
    ensures
        r.version == CgroupVersion::V2 ==> {
            &&& probed(present, file_in(root.bytes@, "cgroup.controllers"@), true)
            &&& r.memory_dir.bytes@ == root.bytes@
            &&& r.cpu_dir.bytes@ == root.bytes@
        },
        r.version == CgroupVersion::V1 ==> probed(
            present,
            file_in(root.bytes@, "cgroup.controllers"@),
            false,
        ),
        r.memory_dir.bytes@ != root.bytes@ ==> {
            &&& probed(
                present,
                file_in(file_in(root.bytes@, "memory"@), "memory.limit_in_bytes"@),
                true,
            )
            &&& r.memory_dir.bytes@ == file_in(root.bytes@, "memory"@)
            &&& r.cpu_dir.bytes@ == file_in(root.bytes@, "cpu,cpuacct"@)
        },
{
}

/// A membership of the other kind of hierarchy leaves the process at the root of this one.
pub proof fn foreign_membership_stays_at_the_root(
    mounts: Seq<MountView>,
    map: Map<Seq<char>, Seq<u8>>,
    path: Seq<u8>,
    root: Seq<u8>,
)
    ensures
        unified_mount(mounts, parts_of(root)) is Some ==> (located(
            mounts,
            SelfView::V1(map),
            root,
        ) matches Some(p) && p.memory_dir == root && p.cpu_dir == root),
        (unified_mount(mounts, parts_of(root)) is None && (located(
            mounts,
            SelfView::V2(path),
            root,
        ) is Some)) ==> located(mounts, SelfView::V2(path), root)->0.memory_dir == below(
            join_text(
                root,
                name_of(parts_of(controller_mount(mounts, "memory"@)->0.mount_point))->0,
            ),
            adjusted(seq![SLASH], controller_mount(mounts, "memory"@)->0.mount_root),
        ),
{
    lemma_root_parts();
    let slash = seq![SLASH];
    assert(parts_of(slash).take(1) == root_dir());
    assert(stripped(parts_of(slash), root_dir()) is Some);
    rest_has_the_parts_left(slash, 1);
    lemma_lead(text_after(slash, 1));
    assert(parts_of(slash).skip(1).len() == 0);
    assert(below(root, slash) == root);
}

/// A unified hierarchy that is mounted at the root is found, and the first one counts;
/// mounts elsewhere, and v1 ones, never do.
pub proof fn unified_mount_is_found_at_the_root(mounts: Seq<MountView>, root: Seq<Seq<u8>>, i: int)
    requires
        0 <= i < mounts.len(),
        forall|j: int|
            0 <= j < i ==> (#[trigger] mounts[j]).fstype == CgroupVersion::V1 || parts_of(
                mounts[j].mount_point,
            ) != root,
    ensures
        (mounts[i].fstype == CgroupVersion::V2 && parts_of(mounts[i].mount_point) == root)
            ==> unified_mount(mounts, root) == Some(mounts[i]),
        (i == mounts.len() - 1 && !(mounts[i].fstype == CgroupVersion::V2 && parts_of(
            mounts[i].mount_point,
        ) == root)) ==> unified_mount(mounts, root) is None,
    decreases i,
{
    reveal_with_fuel(unified_mount, 2);
    if i > 0 {
        let rest = mounts.drop_first();
        assert(mounts[0].fstype == CgroupVersion::V1 || parts_of(mounts[0].mount_point) != root);
        assert(rest[i - 1] == mounts[i]);
        assert forall|j: int| 0 <= j < i - 1 implies (#[trigger] rest[j]).fstype
            == CgroupVersion::V1 || parts_of(rest[j].mount_point) != root by {
            assert(rest[j] == mounts[j + 1]);
        }
        unified_mount_is_found_at_the_root(rest, root, i - 1);
    }
}

/// A setting reads as the number that its file states, below zero too; one that cannot be
/// read, or is no number, leaves the default.
pub proof fn settings_read_back<X>(n: nat, plain: String, negative: String, failure: X, default: int)
    requires
        n <= 0x7fff_ffff_ffff_ffff,
        plain@ == decimal(n),
        negative@ == seq!['-'] + decimal(n),
    ensures
        setting_of::<X>(Ok(plain), default) == n,
        setting_of::<X>(Ok(negative), default) == -(n as int),
        setting_of::<X>(Err(failure), default) == default,
        forall|text: String|
            signed_number_of(trim_of(text@)) is None ==> #[trigger] setting_of::<X>(
                Ok(text),
                default,
            ) == default,
{
    let d = decimal(n);
    lemma_decimal(n);
    assert(digit(d[0]) && digit(d.last()));
    lemma_trimmed(d);
    lemma_trimmed(seq!['-'] + d);
    signed_numbers_read_back(n);
}

/// What is no whole number is none: not a limit, and not a usage. A file that cannot be read
/// is an error of its own.
pub proof fn other_texts_are_no_numbers<X>(text: String, failure: X)
    requires
        number_of(trim_of(text@), u64::MAX as nat) is None,
    ensures
        mem_max_of(text@) is None,
        integer_read::<X>(Ok(text)) == Err::<u64, ReadError<X>>(ReadError::NotAnInteger),
        limit_read::<X>(CgroupVersion::V2, Ok(text)) == Ok::<Option<nat>, ReadError<X>>(None),
        limit_read::<X>(CgroupVersion::V1, Ok(text)) == Err::<Option<nat>, ReadError<X>>(
            ReadError::NotAnInteger,
        ),
        limit_read::<X>(CgroupVersion::V2, Err(failure)) == Err::<Option<nat>, ReadError<X>>(
            ReadError::Io(failure),
        ),
        limit_read::<X>(CgroupVersion::V1, Err(failure)) == Err::<Option<nat>, ReadError<X>>(
            ReadError::Io(failure),
        ),
{
}

/// Without two numbers there is no ceiling.
pub proof fn no_ceiling_without_two_numbers<N: Fn(&str) -> Option<Binary64>>(
    number: N,
    fields: Seq<Seq<char>>,
    r: Option<Binary64>,
)
    requires
        consistent(number),
        is_cpu_max(number, fields, r),
        fields.len() < 2 || spelled(number, fields[1], None) || spelled(number, fields[0], None),
    ensures
        r is None,
{
}

/// The ceiling is read from the files of the hierarchy's version, below the directory of the
/// CPU controller.
pub proof fn ceiling_is_read_from_the_cpu_files<
    X,
    R: Fn(&UnixPath) -> Result<String, X>,
    N: Fn(&str) -> Option<Binary64>,
>(read: R, number: N, p: CgroupPaths, r: Option<Binary64>)
    requires
        is_cpu_ceiling(read, number, p, r),
        r is Some,
    ensures
        p.version == CgroupVersion::V2 ==> exists|text: String| #[trigger]
            answered(read, file_in(p.cpu_dir.bytes@, "cpu.max"@), Ok::<String, X>(text))
                && is_cpu_max(number, words_of(text@), r),
        p.version == CgroupVersion::V1 ==> exists|quota: String, period: String|
            {
                &&& #[trigger] answered(
                    read,
                    file_in(p.cpu_dir.bytes@, "cpu.cfs_quota_us"@),
                    Ok::<String, X>(quota),
                )
                &&& #[trigger] answered(
                    read,
                    file_in(p.cpu_dir.bytes@, "cpu.cfs_period_us"@),
                    Ok::<String, X>(period),
                )
                &&& signed_number_of(trim_of(quota@)) matches Some(q) && signed_number_of(
                    trim_of(period@),
                ) matches Some(d) && q >= 0 && d > 0
            },
{
    if p.version == CgroupVersion::V2 {
        let content = choose|content: Result<String, X>|
            #[trigger] answered(read, file_in(p.cpu_dir.bytes@, "cpu.max"@), content)
                && match content {
                Err(_) => r is None,
                Ok(text) => is_cpu_max(number, words_of(text@), r),
            };
        assert(answered(
            read,
            file_in(p.cpu_dir.bytes@, "cpu.max"@),
            Ok::<String, X>(content->Ok_0),
        ));
    } else {
        let (quota, period) = choose|quota: Result<String, X>, period: Result<String, X>|
            {
                &&& #[trigger] answered(
                    read,
                    file_in(p.cpu_dir.bytes@, "cpu.cfs_quota_us"@),
                    quota,
                )
                &&& #[trigger] answered(
                    read,
                    file_in(p.cpu_dir.bytes@, "cpu.cfs_period_us"@),
                    period,
                )
                &&& is_v1_share(setting_of(quota, -1), setting_of(period, 0), r)
            };
        assert(quota == Ok::<String, X>(quota->Ok_0));
        assert(period == Ok::<String, X>(period->Ok_0));
    }
}

} // verus!
