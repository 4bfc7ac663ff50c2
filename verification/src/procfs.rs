//! Parsers for `/proc/self/mountinfo` and `/proc/self/cgroup`, over the files'
//! content.

use crate::cgroup::CgroupVersion;
use crate::path::UnixPath;
use crate::text::{
    chars_of, find, find_of, from_utf8_lossy, index_of, lines, lines_of, lossy_text, pieces_of,
    same, separators_split, split, text_is_shown_as_itself, text_of, texts, words, words_of,
};
use vstd::prelude::*;
use vstd::slice::slice_subrange;
use vstd::utf8::{
    char_u32_cast, encode_scalar, encode_utf8, has_width_1_encoding, last_continuation_byte,
    leading_byte_width_1, leading_byte_width_2, leading_byte_width_3, leading_byte_width_4,
    second_last_continuation_byte, third_last_continuation_byte,
};

verus! {

/// The value of an octal digit.
pub open spec fn octal_digit(b: u8) -> Option<nat> {
    if 48 <= b <= 55 {
        Some((b - 48) as nat)
    } else {
        None
    }
}

/// The byte that three digits spell in octal.
pub open spec fn octal_byte(a: u8, b: u8, c: u8) -> Option<u8> {
    match (octal_digit(a), octal_digit(b), octal_digit(c)) {
        (Some(x), Some(y), Some(z)) => if 64 * x + 8 * y + z <= 255 {
            Some((64 * x + 8 * y + z) as u8)
        } else {
            None
        },
        _ => None,
    }
}

/// The byte that the escape at the start of the text stands for, if there is one: a
/// backslash and three digits that spell a byte.
pub open spec fn escape_of(s: Seq<u8>) -> Option<u8> {
    if s.len() > 3 && s[0] == 92 {
        octal_byte(s[1], s[2], s[3])
    } else {
        None
    }
}

/// The bytes with every escape replaced by what it stands for.
pub open spec fn unescaped(s: Seq<u8>) -> Seq<u8>
    decreases s.len(),
{
    if s.len() == 0 {
        seq![]
    } else {
        match escape_of(s) {
            Some(b) => seq![b] + unescaped(s.skip(4)),
            None => seq![s[0]] + unescaped(s.skip(1)),
        }
    }
}

/// The path that a field of the mount table names.
pub open spec fn field_path(field: Seq<char>) -> Seq<u8> {
    encode_utf8(lossy_text(unescaped(encode_utf8(field))))
}

/// A mounted cgroup hierarchy.
#[derive(Debug)]
pub struct CgroupMount {
    pub fstype: CgroupVersion,
    pub mount_point: UnixPath,
    pub mount_root: UnixPath,
    /// The mount's own options. Those of a v1 hierarchy name its controllers.
    pub controllers: Vec<String>,
}

/// What a mounted cgroup hierarchy is.
pub struct MountView {
    pub fstype: CgroupVersion,
    pub mount_point: Seq<u8>,
    pub mount_root: Seq<u8>,
    pub controllers: Seq<Seq<char>>,
}

/// The texts that the strings hold.
pub open spec fn strings(v: Seq<String>) -> Seq<Seq<char>> {
    Seq::new(v.len(), |i: int| v[i]@)
}

impl View for CgroupMount {
    type V = MountView;

    open spec fn view(&self) -> MountView {
        MountView {
            fstype: self.fstype,
            mount_point: self.mount_point.bytes@,
            mount_root: self.mount_root.bytes@,
            controllers: strings(self.controllers@),
        }
    }
}

/// What the mounts are.
pub open spec fn mount_views(v: Seq<CgroupMount>) -> Seq<MountView> {
    Seq::new(v.len(), |i: int| v[i]@)
}

/// The separator between the two halves of a line of the mount table.
pub open spec fn separator() -> Seq<char> {
    seq![' ', '-', ' ']
}

/// The hierarchy that a file system type stands for.
pub open spec fn version_of(fstype: Seq<char>) -> Option<CgroupVersion> {
    if fstype == "cgroup"@ {
        Some(CgroupVersion::V1)
    } else if fstype == "cgroup2"@ {
        Some(CgroupVersion::V2)
    } else {
        None
    }
}

/// The cgroup mount that a line of the mount table describes, if it describes one:
/// `id pid maj:min root mount_point options [optional...] - fstype source
/// super_options`.
pub open spec fn mount_of(line: Seq<char>) -> Option<MountView> {
    match find_of(line, separator()) {
        None => None,
        Some(n) => {
            let left = words_of(line.take(n as int));
            let right = words_of(line.skip(n as int + 3));
            if left.len() < 5 || right.len() < 3 {
                None
            } else {
                match version_of(right[0]) {
                    None => None,
                    Some(fstype) => Some(
                        MountView {
                            fstype,
                            mount_point: field_path(left[4]),
                            mount_root: field_path(left[3]),
                            controllers: pieces_of(right[2], ','),
                        },
                    ),
                }
            }
        },
    }
}

/// The cgroup mounts that the lines describe, in order.
pub open spec fn mounts_of(lines: Seq<Seq<char>>) -> Seq<MountView>
    decreases lines.len(),
{
    if lines.len() == 0 {
        seq![]
    } else {
        let rest = mounts_of(lines.drop_last());
        match mount_of(lines.last()) {
            Some(m) => rest.push(m),
            None => rest,
        }
    }
}

fn octal(b: u8) -> (r: Option<u8>)
    ensures
        r is Some <==> octal_digit(b) is Some,
        r matches Some(d) ==> octal_digit(b) == Some(d as nat) && d <= 7,
{
    if 48 <= b && b <= 55 {
        Some(b - 48)
    } else {
        None
    }
}

fn parse_octal_byte(a: u8, b: u8, c: u8) -> (r: Option<u8>)
    ensures
        r == octal_byte(a, b, c),
{
    match (octal(a), octal(b), octal(c)) {
        (Some(x), Some(y), Some(z)) => {
            let n: u16 = 64 * x as u16 + 8 * y as u16 + z as u16;
            if n <= 255 {
                Some(n as u8)
            } else {
                None
            }
        },
        _ => None,
    }
}

/// Decode the octal escapes of the mount table (`\040` for a space and so on). All
/// other bytes pass through unchanged.
pub fn unescape_octal(s: &str) -> (r: String)
    ensures
        r@ == lossy_text(unescaped(encode_utf8(s@))),
{
    let b = s.as_bytes();
    let mut out: Vec<u8> = Vec::new();
    let mut i: usize = 0;
    assert(b@.skip(0) == b@);
    while i < b.len()
        invariant
            i <= b@.len(),
            unescaped(b@) == out@ + unescaped(b@.skip(i as int)),
        decreases b@.len() - i,
    {
        let ghost rest = b@.skip(i as int);
        let ghost before = out@;
        if b[i] == 92 && b.len() - i > 3 {
            if let Some(code) = parse_octal_byte(b[i + 1], b[i + 2], b[i + 3]) {
                out.push(code);
                assert(rest.skip(4) == b@.skip(i + 4));
                assert(before + (seq![code] + unescaped(b@.skip(i + 4))) == out@ + unescaped(
                    b@.skip(i + 4),
                ));
                i = i + 4;
                continue;
            }
        }
        out.push(b[i]);
        assert(rest.skip(1) == b@.skip(i + 1));
        assert(before + (seq![rest[0]] + unescaped(b@.skip(i + 1))) == out@ + unescaped(
            b@.skip(i + 1),
        ));
        i = i + 1;
    }
    assert(unescaped(b@) == out@);
    from_utf8_lossy(out.as_slice())
}

/// The path that a field of the mount table names.
fn parse_path_field(field: &[char]) -> (p: UnixPath)
    ensures
        p.bytes@ == field_path(field@),
{
    let text = text_of(field);
    UnixPath::new(unescape_octal(text.as_str()).as_str())
}

/// The strings that the slices hold.
fn strings_of(v: &Vec<&[char]>) -> (r: Vec<String>)
    ensures
        strings(r@) == texts(v@),
{
    let mut r: Vec<String> = Vec::new();
    let mut i: usize = 0;
    while i < v.len()
        invariant
            i <= v@.len(),
            strings(r@) == texts(v@).take(i as int),
        decreases v@.len() - i,
    {
        let ghost before = strings(r@);
        let s = text_of(v[i]);
        r.push(s);
        assert(strings(r@) == before.push(s@));
        i = i + 1;
        assert(texts(v@).take(i as int) == texts(v@).take(i - 1).push(texts(v@)[i - 1]));
    }
    assert(texts(v@).take(i as int) == texts(v@));
    r
}

/// The cgroup mount that a line of the mount table describes.
fn parse_mount_line(line: &[char]) -> (r: Option<CgroupMount>)
    ensures
        r is Some <==> mount_of(line@) is Some,
        r matches Some(m) ==> mount_of(line@) == Some(m@),
{
    let sep: Vec<char> = vec![' ', '-', ' '];
    assert(sep@ == separator() && separator().len() == 3);
    let n: usize = match find(line, sep.as_slice()) {
        None => {
            return None;
        },
        Some(n) => n,
    };
    let len: usize = line.len();
    let left = words(slice_subrange(line, 0, n));
    let right = words(slice_subrange(line, n + 3, len));
    proof {
        assert(line@.subrange(0, n as int) == line@.take(n as int));
        assert(line@.subrange(n + 3, line@.len() as int) == line@.skip(n + 3));
        assert(texts(left@).len() == left@.len());
        assert(texts(right@).len() == right@.len());
    }
    if left.len() < 5 || right.len() < 3 {
        return None;
    }
    assert(right@[0]@ == texts(right@)[0]);
    assert(right@[2]@ == texts(right@)[2]);
    assert(left@[3]@ == texts(left@)[3]);
    assert(left@[4]@ == texts(left@)[4]);
    let fstype = if same(right[0], "cgroup") {
        CgroupVersion::V1
    } else if same(right[0], "cgroup2") {
        CgroupVersion::V2
    } else {
        return None;
    };
    let pieces = split(right[2], ',');
    let m = CgroupMount {
        fstype,
        mount_point: parse_path_field(left[4]),
        mount_root: parse_path_field(left[3]),
        controllers: strings_of(&pieces),
    };
    Some(m)
}

/// Parse the content of `/proc/self/mountinfo`. Only cgroup mounts are kept; lines
/// that describe none are skipped.
pub fn parse_mountinfo(content: &str) -> (out: Vec<CgroupMount>)
    ensures
        mount_views(out@) == mounts_of(lines_of(content@)),
{
    let chars = chars_of(content);
    let all = lines(chars.as_slice());
    let mut out: Vec<CgroupMount> = Vec::new();
    let mut i: usize = 0;
    assert(mount_views(out@) == Seq::<MountView>::empty());
    while i < all.len()
        invariant
            i <= all@.len(),
            mount_views(out@) == mounts_of(texts(all@).take(i as int)),
        decreases all@.len() - i,
    {
        let ghost before = mount_views(out@);
        let line = all[i];
        assert(line@ == texts(all@)[i as int]);
        assert(texts(all@).take(i + 1).drop_last() == texts(all@).take(i as int));
        match parse_mount_line(line) {
            Some(m) => {
                out.push(m);
                assert(mount_views(out@) == before.push(m@));
            },
            None => {},
        }
        i = i + 1;
    }
    assert(texts(all@).take(i as int) == texts(all@));
    out
}

/// A controller and the path of the process in its hierarchy.
#[derive(Debug)]
pub struct ControllerPath {
    pub controller: String,
    pub path: UnixPath,
}

/// The path of the process in the hierarchy of each controller. No controller
/// occurs twice.
#[derive(Debug)]
pub struct ControllerMap {
    entries: Vec<ControllerPath>,
}

impl View for ControllerMap {
    type V = Map<Seq<char>, Seq<u8>>;

    closed spec fn view(&self) -> Map<Seq<char>, Seq<u8>> {
        Map::new(
            |k: Seq<char>| self.keys().contains(k),
            |k: Seq<char>| self.entries@[self.keys().index_of(k)].path.bytes@,
        )
    }
}

impl ControllerMap {
    /// The controllers in the order in which they came.
    pub closed spec fn keys(&self) -> Seq<Seq<char>> {
        Seq::new(self.entries@.len(), |i: int| self.entries@[i].controller@)
    }

    /// No controller occurs twice.
    #[verifier::type_invariant]
    spec fn distinct(&self) -> bool {
        self.keys().no_duplicates()
    }

    /// The empty map.
    pub fn new() -> (m: ControllerMap)
        ensures
            m@ == Map::<Seq<char>, Seq<u8>>::empty(),
    {
        let m = ControllerMap { entries: Vec::new() };
        assert(m@ == Map::<Seq<char>, Seq<u8>>::empty());
        m
    }

    fn position(&self, controller: &[char]) -> (r: Option<usize>)
        ensures
            r is Some <==> self@.dom().contains(controller@),
            r matches Some(i) ==> i < self.entries@.len() && self.keys()[i as int] == controller@,
    {
        let mut i: usize = 0;
        while i < self.entries.len()
            invariant
                i <= self.entries@.len(),
                forall|j: int| 0 <= j < i ==> self.keys()[j] != controller@,
            decreases self.entries@.len() - i,
        {
            if same(controller, self.entries[i].controller.as_str()) {
                assert(self.keys()[i as int] == controller@);
                return Some(i);
            }
            i = i + 1;
        }
        None
    }

    /// The path for a controller.
    pub fn get(&self, controller: &str) -> (r: Option<&UnixPath>)
        ensures
            r is Some <==> self@.dom().contains(controller@),
            r matches Some(p) ==> self@[controller@] == p.bytes@,
    {
        proof {
            use_type_invariant(self);
        }
        let key = chars_of(controller);
        match self.position(key.as_slice()) {
            Some(i) => {
                assert(self.keys().index_of(controller@) == i);
                Some(&self.entries[i].path)
            },
            None => None,
        }
    }

    /// How many controllers there are.
    pub fn len(&self) -> (n: usize)
        ensures
            n == self@.dom().len(),
    {
        proof {
            use_type_invariant(self);
            self.keys().unique_seq_to_set();
            assert(self@.dom() == self.keys().to_set());
        }
        self.entries.len()
    }

    /// The map with the path set for a controller, in place of one that it had.
    pub fn insert(self, controller: String, path: UnixPath) -> (m: ControllerMap)
        ensures
            m@ == self@.insert(controller@, path.bytes@),
    {
        proof {
            use_type_invariant(&self);
        }
        let key = chars_of(controller.as_str());
        let ghost name = controller@;
        let ghost bytes = path.bytes@;
        let found = self.position(key.as_slice());
        let mut entries = self.entries;
        match found {
            Some(i) => {
                entries.set(i, ControllerPath { controller, path });
                proof {
                    let keys = Seq::new(entries@.len(), |k: int| entries@[k].controller@);
                    assert(keys == self.keys());
                }
                let m = ControllerMap { entries };
                proof {
                    assert(m.keys() == self.keys());
                    assert forall|k: Seq<char>| m.keys().contains(k) implies m@[k]
                        == self@.insert(name, bytes)[k] by {
                        let j = m.keys().index_of(k);
                        if k == name {
                            assert(j == i);
                        }
                    }
                    assert(m@ == self@.insert(name, bytes));
                }
                m
            },
            None => {
                entries.push(ControllerPath { controller, path });
                proof {
                    let keys = Seq::new(entries@.len(), |k: int| entries@[k].controller@);
                    assert(keys == self.keys().push(name));
                }
                let m = ControllerMap { entries };
                proof {
                    assert(m.keys() == self.keys().push(name));
                    assert forall|k: Seq<char>| #[trigger] m.keys().contains(k) <==> (k == name
                        || self.keys().contains(k)) by {
                        if k == name {
                            assert(m.keys()[self.keys().len() as int] == name);
                        }
                        if self.keys().contains(k) {
                            let j = self.keys().index_of(k);
                            assert(m.keys()[j] == k);
                        }
                    }
                    assert forall|k: Seq<char>| m.keys().contains(k) implies m@[k]
                        == self@.insert(name, bytes)[k] by {
                        let j = m.keys().index_of(k);
                        assert(m.keys()[j] == k);
                        if k != name {
                            assert(self.keys()[j] == k);
                            assert(self.keys().index_of(k) == j);
                        } else {
                            assert(j == self.keys().len());
                        }
                    }
                    assert(m@ == self@.insert(name, bytes));
                }
                m
            },
        }
    }
}

/// Where the process stands in the cgroup hierarchies.
#[derive(Debug)]
pub enum SelfCgroup {
    V2 { path: UnixPath },
    V1 { by_controller: ControllerMap },
}

/// Where the process stands in the cgroup hierarchies.
pub enum SelfView {
    V2(Seq<u8>),
    V1(Map<Seq<char>, Seq<u8>>),
}

impl View for SelfCgroup {
    type V = SelfView;

    open spec fn view(&self) -> SelfView {
        match *self {
            SelfCgroup::V2 { path } => SelfView::V2(path.bytes@),
            SelfCgroup::V1 { by_controller } => SelfView::V1(by_controller@),
        }
    }
}

/// The controllers and the path of an `id:controllers:path` line. The path may hold
/// further colons.
pub open spec fn membership_of(line: Seq<char>) -> Option<(Seq<char>, Seq<char>)> {
    let i = index_of(line, ':');
    if i >= line.len() {
        None
    } else {
        let rest = line.skip(i as int + 1);
        let j = index_of(rest, ':');
        if j >= rest.len() {
            None
        } else {
            Some((rest.take(j as int), rest.skip(j as int + 1)))
        }
    }
}

/// The map with the path set for each of the controllers.
pub open spec fn insert_all(
    map: Map<Seq<char>, Seq<u8>>,
    controllers: Seq<Seq<char>>,
    path: Seq<u8>,
) -> Map<Seq<char>, Seq<u8>>
    decreases controllers.len(),
{
    if controllers.len() == 0 {
        map
    } else {
        insert_all(map, controllers.drop_last(), path).insert(controllers.last(), path)
    }
}

/// What the remaining lines say, given what was said before. The first line without
/// controllers is the unified hierarchy, and wins.
pub open spec fn self_cgroup_of(
    lines: Seq<Seq<char>>,
    before: Map<Seq<char>, Seq<u8>>,
) -> SelfView
    decreases lines.len(),
{
    if lines.len() == 0 {
        SelfView::V1(before)
    } else {
        match membership_of(lines[0]) {
            None => self_cgroup_of(lines.drop_first(), before),
            Some((controllers, path)) => if controllers.len() == 0 {
                SelfView::V2(encode_utf8(path))
            } else {
                self_cgroup_of(
                    lines.drop_first(),
                    insert_all(before, pieces_of(controllers, ','), encode_utf8(path)),
                )
            },
        }
    }
}

fn parse_membership(line: &[char]) -> (r: Option<(&[char], &[char])>)
    ensures
        r is Some <==> membership_of(line@) is Some,
        r matches Some(m) ==> membership_of(line@) == Some((m.0@, m.1@)),
{
    let mut i: usize = 0;
    assert(line@.skip(0) == line@);
    while i < line.len() && line[i] != ':'
        invariant
            i <= line@.len(),
            index_of(line@, ':') == i + index_of(line@.skip(i as int), ':'),
        decreases line@.len() - i,
    {
        assert(line@.skip(i as int).drop_first() == line@.skip(i + 1));
        i = i + 1;
    }
    if i == line.len() {
        return None;
    }
    let rest = slice_subrange(line, i + 1, line.len());
    assert(rest@ == line@.skip(i + 1));
    let mut j: usize = 0;
    assert(rest@.skip(0) == rest@);
    while j < rest.len() && rest[j] != ':'
        invariant
            j <= rest@.len(),
            index_of(rest@, ':') == j + index_of(rest@.skip(j as int), ':'),
        decreases rest@.len() - j,
    {
        assert(rest@.skip(j as int).drop_first() == rest@.skip(j + 1));
        j = j + 1;
    }
    if j == rest.len() {
        return None;
    }
    let controllers = slice_subrange(rest, 0, j);
    let path = slice_subrange(rest, j + 1, rest.len());
    assert(controllers@ == rest@.take(j as int));
    assert(path@ == rest@.skip(j + 1));
    Some((controllers, path))
}

/// Parse the content of `/proc/self/cgroup`. A line without controllers (`0::path`)
/// is the unified hierarchy and wins; otherwise each line maps its controllers to
/// its path. Lines that are neither are skipped.
pub fn parse_self_cgroup(content: &str) -> (r: SelfCgroup)
    ensures
        r@ == self_cgroup_of(lines_of(content@), Map::empty()),
{
    let chars = chars_of(content);
    let all = lines(chars.as_slice());
    let mut by_controller = ControllerMap::new();
    let mut i: usize = 0;
    assert(texts(all@).skip(0) == texts(all@));
    while i < all.len()
        invariant
            i <= all@.len(),
            self_cgroup_of(texts(all@), Map::empty()) == self_cgroup_of(
                texts(all@).skip(i as int),
                by_controller@,
            ),
            texts(all@) == lines_of(content@),
        decreases all@.len() - i,
    {
        let ghost rest = texts(all@).skip(i as int);
        let line = all[i];
        assert(line@ == rest[0]);
        assert(rest.drop_first() == texts(all@).skip(i + 1));
        if let Some((controllers, path)) = parse_membership(line) {
            let path = UnixPath::new(text_of(path).as_str());
            if controllers.len() == 0 {
                return SelfCgroup::V2 { path };
            }
            let names = split(controllers, ',');
            let ghost before = by_controller@;
            let mut j: usize = 0;
            while j < names.len()
                invariant
                    j <= names@.len(),
                    by_controller@ == insert_all(before, texts(names@).take(j as int), path.bytes@),
                decreases names@.len() - j,
            {
                assert(texts(names@).take(j + 1).drop_last() == texts(names@).take(j as int));
                by_controller = by_controller.insert(text_of(names[j]), path.copy());
                j = j + 1;
            }
            assert(texts(names@).take(j as int) == texts(names@));
        }
        i = i + 1;
    }
    SelfCgroup::V1 { by_controller }
}

/// Where the live `/proc` files are read from.
#[derive(Debug)]
pub struct ProcSource {
    pub mountinfo: UnixPath,
    pub self_cgroup: UnixPath,
}

/// The content that was read, or the empty text.
pub open spec fn content_or_empty<X>(read: Result<String, X>) -> Seq<char> {
    match read {
        Ok(s) => s@,
        Err(_) => seq![],
    }
}

impl ProcSource {
    /// The files of the running process.
    pub fn system() -> (p: ProcSource)
        ensures
            p.mountinfo.bytes@ == encode_utf8("/proc/self/mountinfo"@),
            p.self_cgroup.bytes@ == encode_utf8("/proc/self/cgroup"@),
    {
        ProcSource {
            mountinfo: UnixPath::new("/proc/self/mountinfo"),
            self_cgroup: UnixPath::new("/proc/self/cgroup"),
        }
    }

    /// The content of the file that `read` reads, or `""` where it cannot: a missing
    /// source must not stop the supervisor.
    fn read_or_empty<X, R: Fn(&UnixPath) -> Result<String, X>>(path: &UnixPath, read: &R) -> (s: String)
        requires
            call_requires(*read, (path,)),
        ensures
            exists|r: Result<String, X>|
                call_ensures(*read, (path,), r) && s@ == #[trigger] content_or_empty(r),
    {
        let r = read(path);
        let ghost content = content_or_empty(r);
        let s = match r {
            Ok(s) => s,
            Err(_) => String::new(),
        };
        assert(s@ == content);
        s
    }

    /// The mount table as `read` reads it, or `""`.
    pub fn read_mountinfo<X, R: Fn(&UnixPath) -> Result<String, X>>(&self, read: &R) -> (s: String)
        requires
            call_requires(*read, (&self.mountinfo,)),
        ensures
            exists|r: Result<String, X>|
                call_ensures(*read, (&self.mountinfo,), r) && s@ == #[trigger] content_or_empty(r),
    {
        Self::read_or_empty(&self.mountinfo, read)
    }

    /// The cgroup memberships as `read` reads them, or `""`.
    pub fn read_self_cgroup<X, R: Fn(&UnixPath) -> Result<String, X>>(&self, read: &R) -> (s: String)
        requires
            call_requires(*read, (&self.self_cgroup,)),
        ensures
            exists|r: Result<String, X>|
                call_ensures(*read, (&self.self_cgroup,), r) && s@ == #[trigger] content_or_empty(
                    r,
                ),
    {
        Self::read_or_empty(&self.self_cgroup, read)
    }
}

/// No byte of an encoded character is a backslash, unless the character is one.
proof fn lemma_scalar_bytes(c: u32)
    by (bit_vector)
    requires
        c != 92,
    ensures
        has_width_1_encoding(c) ==> leading_byte_width_1(c) != 92,
        leading_byte_width_2(c) != 92,
        leading_byte_width_3(c) != 92,
        leading_byte_width_4(c) != 92,
        last_continuation_byte(c) != 92,
        second_last_continuation_byte(c) != 92,
        third_last_continuation_byte(c) != 92,
{
}

proof fn lemma_no_backslash(field: Seq<char>)
    requires
        !field.contains('\\'),
    ensures
        forall|i: int|
            0 <= i < encode_utf8(field).len() ==> #[trigger] encode_utf8(field)[i] != 92,
    decreases field.len(),
{
    if field.len() > 0 {
        let rest = field.drop_first();
        assert(field[0] != '\\');
        assert forall|i: int| 0 <= i < rest.len() implies rest[i] != '\\' by {
            assert(rest[i] == field[i + 1]);
        }
        lemma_no_backslash(rest);
        let c = field[0];
        char_u32_cast(c, c as u32);
        lemma_scalar_bytes(c as u32);
        let head = encode_scalar(field[0] as u32);
        assert forall|i: int| 0 <= i < encode_utf8(field).len() implies #[trigger] encode_utf8(
            field,
        )[i] != 92 by {
            if i >= head.len() {
                assert(encode_utf8(field)[i] == encode_utf8(rest)[i - head.len()]);
            }
        }
    }
}

proof fn lemma_unescaped_plain(s: Seq<u8>)
    requires
        forall|i: int| 0 <= i < s.len() ==> #[trigger] s[i] != 92,
    ensures
        unescaped(s) == s,
    decreases s.len(),
{
    if s.len() > 0 {
        assert forall|i: int| 0 <= i < s.skip(1).len() implies #[trigger] s.skip(1)[i] != 92 by {
            assert(s.skip(1)[i] == s[i + 1]);
        }
        lemma_unescaped_plain(s.skip(1));
        assert(seq![s[0]] + s.skip(1) == s);
    }
}

/// A field of the mount table without a backslash names the path that it spells.
pub proof fn plain_fields_name_themselves(field: Seq<char>)
    requires
        !field.contains('\\'),
    ensures
        field_path(field) == encode_utf8(field),
{
    lemma_no_backslash(field);
    lemma_unescaped_plain(encode_utf8(field));
    text_is_shown_as_itself(field);
}

/// Every byte has an escape of three octal digits, which reads back as that byte.
pub proof fn escapes_read_back(b: u8, rest: Seq<u8>)
    ensures
        ({
            let escape = seq![
                92u8,
                (48 + b / 64) as u8,
                (48 + b / 8 % 8) as u8,
                (48 + b % 8) as u8,
            ];
            unescaped(escape + rest) == seq![b] + unescaped(rest)
        }),
        b != 92 ==> unescaped(seq![b] + rest) == seq![b] + unescaped(rest),
{
    let escape = seq![92u8, (48 + b / 64) as u8, (48 + b / 8 % 8) as u8, (48 + b % 8) as u8];
    let s = escape + rest;
    assert(s[0] == 92 && s[1] == escape[1] && s[2] == escape[2] && s[3] == escape[3]);
    assert(s.skip(4) == rest);
    assert((seq![b] + rest).skip(1) == rest);
}

/// What begins with a backslash but is no escape of three octal digits for a byte passes
/// through.
pub proof fn other_backslashes_pass_through(s: Seq<u8>)
    requires
        s.len() > 0,
        s.len() <= 3 || !(48 <= s[1] <= 51) || !(48 <= s[2] <= 55) || !(48 <= s[3] <= 55),
    ensures
        unescaped(s) == seq![s[0]] + unescaped(s.skip(1)),
{
}

/// A membership line reads back as its controllers and its path; the path may hold colons.
pub proof fn memberships_read_back(id: Seq<char>, controllers: Seq<char>, path: Seq<char>)
    requires
        !id.contains(':'),
        !controllers.contains(':'),
    ensures
        membership_of(id + seq![':'] + (controllers + seq![':'] + path)) == Some(
            (controllers, path),
        ),
{
    let rest = controllers + seq![':'] + path;
    let line = id + seq![':'] + rest;
    separators_split(id, ':', rest);
    separators_split(controllers, ':', path);
    assert(line.skip(id.len() as int + 1) == rest);
    assert(rest.take(controllers.len() as int) == controllers);
    assert(rest.skip(controllers.len() as int + 1) == path);
}

/// The first line without controllers is the unified hierarchy, and wins over every other
/// line, before it or behind.
pub proof fn unified_membership_wins(
    lines: Seq<Seq<char>>,
    before: Map<Seq<char>, Seq<u8>>,
    i: int,
    path: Seq<char>,
)
    requires
        0 <= i < lines.len(),
        membership_of(lines[i]) == Some((Seq::<char>::empty(), path)),
        forall|j: int|
            0 <= j < i ==> (membership_of(#[trigger] lines[j]) matches Some((c, _)) ==> c.len() > 0),
    ensures
        self_cgroup_of(lines, before) == SelfView::V2(encode_utf8(path)),
    decreases i,
{
    if i > 0 {
        let rest = lines.drop_first();
        assert(rest[i - 1] == lines[i]);
        assert forall|j: int| 0 <= j < i - 1 implies (membership_of(#[trigger] rest[j]) matches Some(
            (c, _),
        ) ==> c.len() > 0) by {
            assert(rest[j] == lines[j + 1]);
        }
        match membership_of(lines[0]) {
            None => unified_membership_wins(rest, before, i - 1, path),
            Some((controllers, p)) => {
                assert(membership_of(lines[0]) is Some);
                unified_membership_wins(
                    rest,
                    insert_all(before, pieces_of(controllers, ','), encode_utf8(p)),
                    i - 1,
                    path,
                );
            },
        }
    }
}

proof fn lemma_insert_all(
    map: Map<Seq<char>, Seq<u8>>,
    controllers: Seq<Seq<char>>,
    path: Seq<u8>,
    c: Seq<char>,
)
    ensures
        controllers.contains(c) ==> insert_all(map, controllers, path).dom().contains(c)
            && insert_all(map, controllers, path)[c] == path,
        !controllers.contains(c) ==> (insert_all(map, controllers, path).dom().contains(c)
            <==> map.dom().contains(c)) && insert_all(map, controllers, path)[c] == map[c],
    decreases controllers.len(),
{
    if controllers.len() > 0 {
        let rest = controllers.drop_last();
        lemma_insert_all(map, rest, path, c);
        if controllers.contains(c) && controllers.last() != c {
            let i = controllers.index_of(c);
            assert(rest[i] == c);
        }
        if rest.contains(c) {
            let i = rest.index_of(c);
            assert(controllers[i] == c);
        }
        assert(controllers.contains(controllers.last())) by {
            assert(controllers[controllers.len() - 1] == controllers.last());
        }
    }
}

/// A v1 line gives its path to each of its controllers and to no other.
pub proof fn a_line_speaks_for_its_own_controllers(
    line: Seq<char>,
    before: Map<Seq<char>, Seq<u8>>,
    controllers: Seq<char>,
    path: Seq<char>,
    c: Seq<char>,
)
    requires
        membership_of(line) == Some((controllers, path)),
        controllers.len() > 0,
    ensures
        self_cgroup_of(seq![line], before) matches SelfView::V1(map) && {
            &&& pieces_of(controllers, ',').contains(c) ==> map.dom().contains(c) && map[c]
                == encode_utf8(path)
            &&& !pieces_of(controllers, ',').contains(c) ==> (map.dom().contains(c)
                <==> before.dom().contains(c)) && map[c] == before[c]
        },
{
    let lines = seq![line];
    assert(lines.drop_first() == Seq::<Seq<char>>::empty());
    reveal_with_fuel(self_cgroup_of, 2);
    lemma_insert_all(before, pieces_of(controllers, ','), encode_utf8(path), c);
}

/// A line of the mount table is read by its fields: the fourth names the part of the
/// hierarchy that is mounted, the fifth where it is mounted, and behind the separator the
/// first names the type and the third the options. Other types are none of ours.
pub proof fn mount_lines_are_read_by_field(line: Seq<char>, n: nat)
    requires
        find_of(line, seq![' ', '-', ' ']) == Some(n),
        words_of(line.take(n as int)).len() >= 5,
        words_of(line.skip(n as int + 3)).len() >= 3,
    ensures
        ({
            let left = words_of(line.take(n as int));
            let right = words_of(line.skip(n as int + 3));
            let m = mount_of(line);
            &&& m is Some <==> right[0] == "cgroup"@ || right[0] == "cgroup2"@
            &&& right[0] == "cgroup2"@ ==> m->0.fstype == CgroupVersion::V2
            &&& right[0] == "cgroup"@ ==> m->0.fstype == CgroupVersion::V1
            &&& m is Some ==> {
                &&& m->0.mount_root == field_path(left[3])
                &&& m->0.mount_point == field_path(left[4])
                &&& m->0.controllers == pieces_of(right[2], ',')
            }
        }),
{
    reveal_strlit("cgroup");
    reveal_strlit("cgroup2");
    assert("cgroup"@.len() == 6 && "cgroup2"@.len() == 7);
}

/// Mounts are kept in the order of their lines; lines that describe none are skipped.
pub proof fn mounts_keep_the_order_of_their_lines(lines: Seq<Seq<char>>, line: Seq<char>)
    ensures
        mount_of(line) matches Some(m) ==> mounts_of(lines.push(line)) == mounts_of(lines).push(m),
        mount_of(line) is None ==> mounts_of(lines.push(line)) == mounts_of(lines),
        mounts_of(Seq::empty()) == Seq::<MountView>::empty(),
{
    assert(lines.push(line).drop_last() == lines);
}

} // verus!
