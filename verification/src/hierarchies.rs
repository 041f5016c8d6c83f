//! The control-group hierarchies: the mount-table record model and its
//! parser, the per-controller (v1) hierarchy resolved from a mount-table
//! snapshot, the unified (v2) hierarchy, and the subsystem list each exposes.

use vstd::prelude::*;

use crate::devices::DevicesController;
use crate::text::{
    chars_to_string, spec_find, spec_lines, spec_rfind, spec_split2, spec_split_sub, spec_trim,
    lines_of, rfind_char, split2_chars, split_sub_chars, str_eq_str, str_to_chars, trim_chars,
};

verus! {

/// The well-known mount point of the unified (v2) hierarchy.
pub const UNIFIED_MOUNTPOINT: &'static str = "/sys/fs/cgroup";

/// One parsed record of the process mount table; see `proc(5)` for the
/// source format.
#[derive(Debug, PartialEq, Eq, Hash)]
pub struct Mountinfo {
    /// Mount root directory of the file system.
    pub mount_root: String,
    /// Mount pathname relative to the process's root.
    pub mount_point: String,
    /// Filesystem type: the main type with an optional sub-type.
    pub fs_type: (String, Option<String>),
    /// Superblock options, in the order listed.
    pub super_opts: Vec<String>,
}

/// The mathematical form of a mount record.
pub ghost struct MountinfoV {
    pub mount_root: Seq<char>,
    pub mount_point: Seq<char>,
    pub fs_type: (Seq<char>, Option<Seq<char>>),
    pub super_opts: Seq<Seq<char>>,
}

impl View for Mountinfo {
    type V = MountinfoV;

    open spec fn view(&self) -> MountinfoV {
        MountinfoV {
            mount_root: self.mount_root@,
            mount_point: self.mount_point@,
            fs_type: (self.fs_type.0@, self.fs_type.1.deep_view()),
            super_opts: self.super_opts.deep_view(),
        }
    }
}

impl DeepView for Mountinfo {
    type V = MountinfoV;

    open spec fn deep_view(&self) -> MountinfoV {
        self.view()
    }
}

/// Copies a vector of strings.
fn clone_string_vec(v: &Vec<String>) -> (r: Vec<String>)
    ensures
        r.deep_view() == v.deep_view(),
{
    let n = v.len();
    let mut r: Vec<String> = Vec::new();
    let mut i: usize = 0;
    proof {
        assert(r.deep_view() =~= v.deep_view().take(0));
    }
    while i < n
        invariant
            0 <= i <= n == v@.len(),
            r.deep_view() == v.deep_view().take(i as int),
        decreases n - i,
    {
        let ghost prev = r.deep_view();
        let s = v[i].clone();
        let ghost sv = s@;
        r.push(s);
        proof {
            assert(sv == v@[i as int]@);
            assert(v@[i as int]@ == v.deep_view()[i as int]);
            assert(r.deep_view() =~~= prev + seq![sv]);
            assert(v.deep_view().take(i + 1) =~= v.deep_view().take(i as int) + seq![
                v.deep_view()[i as int],
            ]);
        }
        i += 1;
    }
    proof {
        assert(v.deep_view().take(n as int) =~= v.deep_view());
    }
    r
}

impl Clone for Mountinfo {
    /// A copy of the record, equal in every field.
    fn clone(&self) -> (r: Self)
        ensures
            r@ == self@,
    {
        let sub: Option<String> = match &self.fs_type.1 {
            Some(s) => Some(s.clone()),
            None => None,
        };
        let r = Mountinfo {
            mount_root: self.mount_root.clone(),
            mount_point: self.mount_point.clone(),
            fs_type: (self.fs_type.0.clone(), sub),
            super_opts: clone_string_vec(&self.super_opts),
        };
        assert(r@.fs_type == self@.fs_type);
        r
    }
}

/// The filesystem-type field: the token split once at its first dot into
/// the primary type and an optional sub-type.
pub open spec fn spec_fs_type(token: Seq<char>) -> (Seq<char>, Option<Seq<char>>) {
    match spec_find(token, '.') {
        None => (token, None::<Seq<char>>),
        Some(i) => (token.take(i), Some(token.skip(i + 1))),
    }
}

/// The record a mount-table line parses to, if it has the expected shape:
/// two halves around the literal `" - "` separator, at least six
/// space-separated fields in the first half and three in the second; any
/// other shape yields no record.
pub open spec fn spec_parse_mountinfo_line(line: Seq<char>) -> Option<MountinfoV> {
    let halves = spec_split_sub(line, seq![' ', '-', ' ']);
    if halves.len() != 2 {
        None
    } else {
        let s0 = spec_split2(spec_trim(halves[0]), ' ', ' ');
        let s1 = spec_split2(spec_trim(halves[1]), ' ', ' ');
        if s0.len() < 6 || s1.len() < 3 {
            None
        } else {
            Some(
                MountinfoV {
                    mount_root: s0[3],
                    mount_point: s0[4],
                    fs_type: spec_fs_type(spec_trim(s1[0])),
                    super_opts: spec_split2(spec_trim(s1[2]), ',', ','),
                },
            )
        }
    }
}

/// Parses one mount-table line. A line of the wrong shape yields `None`;
/// that is the expected outcome for the table's many unrelated entries, not
/// an error.
pub fn parse_mountinfo_for_line(line: &str) -> (r: Option<Mountinfo>)
    ensures
        match r {
            Some(m) => spec_parse_mountinfo_line(line@) == Some(m@),
            None => spec_parse_mountinfo_line(line@) is None,
        },
{
    let chars = str_to_chars(line);
    let mut sep: Vec<char> = Vec::new();
    sep.push(' ');
    sep.push('-');
    sep.push(' ');
    assert(sep@ =~= seq![' ', '-', ' ']);
    let halves = split_sub_chars(&chars, &sep);
    let ghost halvesv = halves.deep_view();
    if halves.len() != 2 {
        return None;
    }
    proof {
        assert(halves@[0].deep_view() == halvesv[0]);
        assert(halves@[0].deep_view() =~= halves@[0]@);
        assert(halves@[1].deep_view() == halvesv[1]);
        assert(halves@[1].deep_view() =~= halves@[1]@);
    }
    let h0 = trim_chars(&halves[0]);
    let s0 = split2_chars(&h0, ' ', ' ');
    let ghost s0v = s0.deep_view();
    let h1 = trim_chars(&halves[1]);
    let s1 = split2_chars(&h1, ' ', ' ');
    let ghost s1v = s1.deep_view();
    if s0.len() < 6 || s1.len() < 3 {
        return None;
    }
    proof {
        assert(s0@[3].deep_view() == s0v[3]);
        assert(s0@[3].deep_view() =~= s0@[3]@);
        assert(s0@[4].deep_view() == s0v[4]);
        assert(s0@[4].deep_view() =~= s0@[4]@);
        assert(s1@[0].deep_view() == s1v[0]);
        assert(s1@[0].deep_view() =~= s1@[0]@);
        assert(s1@[2].deep_view() == s1v[2]);
        assert(s1@[2].deep_view() =~= s1@[2]@);
    }
    let ft = trim_chars(&s1[0]);
    let fs_type: (String, Option<String>) = match crate::text::find_char(&ft, '.') {
        None => (chars_to_string(&ft), None),
        Some(i) => {
            let primary = crate::text::subrange_chars(&ft, 0, i);
            let sub = crate::text::subrange_chars(&ft, i + 1, ft.len());
            proof {
                assert(ft@.subrange(0, i as int) =~= ft@.take(i as int));
                assert(ft@.subrange(i + 1, ft@.len() as int) =~= ft@.skip(i + 1));
            }
            (chars_to_string(&primary), Some(chars_to_string(&sub)))
        },
    };
    let so = trim_chars(&s1[2]);
    let opts_parts = split2_chars(&so, ',', ',');
    let ghost optsv = opts_parts.deep_view();
    let mut super_opts: Vec<String> = Vec::new();
    let n_opts = opts_parts.len();
    assert(n_opts == optsv.len()) by {
        assert(opts_parts.deep_view().len() == opts_parts@.len());
    }
    let mut k: usize = 0;
    proof {
        assert(super_opts.deep_view() =~= optsv.take(0));
    }
    while k < n_opts
        invariant
            0 <= k <= n_opts == opts_parts@.len(),
            opts_parts.deep_view() == optsv,
            super_opts.deep_view() == optsv.take(k as int),
        decreases n_opts - k,
    {
        proof {
            assert(opts_parts@[k as int].deep_view() == optsv[k as int]);
            assert(opts_parts@[k as int].deep_view() =~= opts_parts@[k as int]@);
        }
        let ghost prev = super_opts.deep_view();
        let opt = chars_to_string(&opts_parts[k]);
        let ghost ov = opt@;
        super_opts.push(opt);
        proof {
            assert(super_opts.deep_view() =~~= prev + seq![ov]);
            assert(optsv.take(k + 1) =~= optsv.take(k as int) + seq![optsv[k as int]]);
        }
        k += 1;
    }
    proof {
        assert(optsv.take(n_opts as int) =~= optsv);
    }
    let mount_root = chars_to_string(&s0[3]);
    let mount_point = chars_to_string(&s0[4]);
    let m = Mountinfo { mount_root, mount_point, fs_type, super_opts };
    proof {
        let sm = spec_parse_mountinfo_line(line@).unwrap();
        assert(m@.mount_root == sm.mount_root);
        assert(m@.mount_point == sm.mount_point);
        assert(m@.fs_type == sm.fs_type);
        assert(m@.super_opts == sm.super_opts);
    }
    Some(m)
}

/// Whether a mount record is of the cgroup filesystem family.
pub open spec fn spec_is_cgroup_mount(m: MountinfoV) -> bool {
    m.fs_type.0 == "cgroup"@
}

/// The cgroup-family records among the parsed lines of a mount table, in
/// table order.
pub open spec fn spec_cgroup_records(ls: Seq<Seq<char>>) -> Seq<MountinfoV>
    decreases ls.len(),
{
    if ls.len() == 0 {
        Seq::<MountinfoV>::empty()
    } else {
        let prev = spec_cgroup_records(ls.drop_last());
        match spec_parse_mountinfo_line(ls[ls.len() - 1]) {
            Some(m) => if spec_is_cgroup_mount(m) {
                prev.push(m)
            } else {
                prev
            },
            None => prev,
        }
    }
}

/// The cgroup-family mount records of a full mount-table text.
pub open spec fn spec_parse_mountinfo(s: Seq<char>) -> Seq<MountinfoV> {
    spec_cgroup_records(spec_lines(s))
}

/// Parses the full text of a mount table, keeping the cgroup-family records
/// in table order. Lines of the wrong shape are skipped.
pub fn parse_mountinfo(content: &str) -> (r: Vec<Mountinfo>)
    ensures
        r.deep_view() == spec_parse_mountinfo(content@),
{
    let chars = str_to_chars(content);
    let ls = lines_of(&chars);
    let ghost lsv = ls.deep_view();
    let n = ls.len();
    assert(n == lsv.len()) by {
        assert(ls.deep_view().len() == ls@.len());
    }
    let mut out: Vec<Mountinfo> = Vec::new();
    let mut i: usize = 0;
    proof {
        assert(lsv.take(0) =~= Seq::<Seq<char>>::empty());
        assert(out.deep_view() =~= Seq::<MountinfoV>::empty());
    }
    while i < n
        invariant
            0 <= i <= n == ls@.len(),
            ls.deep_view() == lsv,
            lsv == spec_lines(content@),
            out.deep_view() == spec_cgroup_records(lsv.take(i as int)),
        decreases n - i,
    {
        proof {
            assert(lsv.take(i + 1).drop_last() =~= lsv.take(i as int));
            assert(lsv.take(i + 1)[i as int] == lsv[i as int]);
            assert(ls@[i as int].deep_view() == lsv[i as int]);
            assert(ls@[i as int].deep_view() =~= ls@[i as int]@);
        }
        let line = chars_to_string(&ls[i]);
        if let Some(m) = parse_mountinfo_for_line(line.as_str()) {
            let keep = str_eq_str(m.fs_type.0.as_str(), "cgroup");
            if keep {
                let ghost prev = out.deep_view();
                let ghost mv = m@;
                out.push(m);
                proof {
                    assert(out.deep_view() =~~= prev.push(mv));
                }
            }
        }
        i += 1;
    }
    proof {
        assert(lsv.take(n as int) =~= lsv);
    }
    out
}

/// The closed set of controller kinds this library knows.
#[derive(Debug, Copy, Clone, PartialEq, Eq, Structural)]
pub enum Controllers {
    Pids,
    Mem,
    CpuSet,
    CpuAcct,
    Cpu,
    Devices,
    Freezer,
    NetCls,
    BlkIo,
    PerfEvent,
    NetPrio,
    HugeTlb,
    Rdma,
    Systemd,
}

/// The canonical tag under which a controller kind appears among a v1 cgroup
/// mount's superblock options.
pub open spec fn spec_controller_tag(c: Controllers) -> Seq<char> {
    match c {
        Controllers::Pids => "pids"@,
        Controllers::Mem => "memory"@,
        Controllers::CpuSet => "cpuset"@,
        Controllers::CpuAcct => "cpuacct"@,
        Controllers::Cpu => "cpu"@,
        Controllers::Devices => "devices"@,
        Controllers::Freezer => "freezer"@,
        Controllers::NetCls => "net_cls"@,
        Controllers::BlkIo => "blkio"@,
        Controllers::PerfEvent => "perf_event"@,
        Controllers::NetPrio => "net_prio"@,
        Controllers::HugeTlb => "hugetlb"@,
        Controllers::Rdma => "rdma"@,
        Controllers::Systemd => "name=systemd"@,
    }
}

impl Controllers {
    /// The canonical tag string of this controller kind.
    pub fn to_string(&self) -> (s: String)
        ensures
            s@ == spec_controller_tag(*self),
    {
        match self {
            Controllers::Pids => String::from_str("pids"),
            Controllers::Mem => String::from_str("memory"),
            Controllers::CpuSet => String::from_str("cpuset"),
            Controllers::CpuAcct => String::from_str("cpuacct"),
            Controllers::Cpu => String::from_str("cpu"),
            Controllers::Devices => String::from_str("devices"),
            Controllers::Freezer => String::from_str("freezer"),
            Controllers::NetCls => String::from_str("net_cls"),
            Controllers::BlkIo => String::from_str("blkio"),
            Controllers::PerfEvent => String::from_str("perf_event"),
            Controllers::NetPrio => String::from_str("net_prio"),
            Controllers::HugeTlb => String::from_str("hugetlb"),
            Controllers::Rdma => String::from_str("rdma"),
            Controllers::Systemd => String::from_str("name=systemd"),
        }
    }
}

/// The handle every controller other than the fully specified devices
/// controller carries: the hierarchy root it was resolved from, its path,
/// and whether it lives in the unified hierarchy.
#[derive(Debug, Clone)]
pub struct ControllerHandle {
    /// The root of the hierarchy the controller was resolved from.
    pub base: String,
    /// The directory holding the controller's kernel files.
    pub path: String,
    /// Whether the controller lives in the unified (v2) hierarchy.
    pub v2: bool,
}

impl ControllerHandle {
    /// A handle over the given mount point and root.
    pub fn new(point: String, root: String, v2: bool) -> (h: Self)
        ensures
            h.base@ == root@,
            h.path@ == point@,
            h.v2 == v2,
    {
        ControllerHandle { base: root, path: point, v2 }
    }
}

/// One attached controller: the tag says which resource domain it belongs
/// to. The devices controller carries its fully specified handle; every
/// other kind carries the generic handle.
#[derive(Debug, Clone)]
pub enum Subsystem {
    Pid(ControllerHandle),
    Mem(ControllerHandle),
    CpuSet(ControllerHandle),
    CpuAcct(ControllerHandle),
    Cpu(ControllerHandle),
    Devices(DevicesController),
    Freezer(ControllerHandle),
    NetCls(ControllerHandle),
    BlkIo(ControllerHandle),
    PerfEvent(ControllerHandle),
    NetPrio(ControllerHandle),
    HugeTlb(ControllerHandle),
    Rdma(ControllerHandle),
    Systemd(ControllerHandle),
}

impl Subsystem {
    /// The controller kind this subsystem is tagged with.
    pub open spec fn spec_kind(self) -> Controllers {
        match self {
            Subsystem::Pid(_) => Controllers::Pids,
            Subsystem::Mem(_) => Controllers::Mem,
            Subsystem::CpuSet(_) => Controllers::CpuSet,
            Subsystem::CpuAcct(_) => Controllers::CpuAcct,
            Subsystem::Cpu(_) => Controllers::Cpu,
            Subsystem::Devices(_) => Controllers::Devices,
            Subsystem::Freezer(_) => Controllers::Freezer,
            Subsystem::NetCls(_) => Controllers::NetCls,
            Subsystem::BlkIo(_) => Controllers::BlkIo,
            Subsystem::PerfEvent(_) => Controllers::PerfEvent,
            Subsystem::NetPrio(_) => Controllers::NetPrio,
            Subsystem::HugeTlb(_) => Controllers::HugeTlb,
            Subsystem::Rdma(_) => Controllers::Rdma,
            Subsystem::Systemd(_) => Controllers::Systemd,
        }
    }

    /// The hierarchy root the controller was resolved from.
    pub open spec fn spec_base(self) -> Seq<char> {
        match self {
            Subsystem::Pid(h) => h.base@,
            Subsystem::Mem(h) => h.base@,
            Subsystem::CpuSet(h) => h.base@,
            Subsystem::CpuAcct(h) => h.base@,
            Subsystem::Cpu(h) => h.base@,
            Subsystem::Devices(c) => c.base@,
            Subsystem::Freezer(h) => h.base@,
            Subsystem::NetCls(h) => h.base@,
            Subsystem::BlkIo(h) => h.base@,
            Subsystem::PerfEvent(h) => h.base@,
            Subsystem::NetPrio(h) => h.base@,
            Subsystem::HugeTlb(h) => h.base@,
            Subsystem::Rdma(h) => h.base@,
            Subsystem::Systemd(h) => h.base@,
        }
    }

    /// The controller's path.
    pub open spec fn spec_path(self) -> Seq<char> {
        match self {
            Subsystem::Pid(h) => h.path@,
            Subsystem::Mem(h) => h.path@,
            Subsystem::CpuSet(h) => h.path@,
            Subsystem::CpuAcct(h) => h.path@,
            Subsystem::Cpu(h) => h.path@,
            Subsystem::Devices(c) => c.path@,
            Subsystem::Freezer(h) => h.path@,
            Subsystem::NetCls(h) => h.path@,
            Subsystem::BlkIo(h) => h.path@,
            Subsystem::PerfEvent(h) => h.path@,
            Subsystem::NetPrio(h) => h.path@,
            Subsystem::HugeTlb(h) => h.path@,
            Subsystem::Rdma(h) => h.path@,
            Subsystem::Systemd(h) => h.path@,
        }
    }

    /// Whether the controller lives in the unified hierarchy. The devices
    /// controller only exists in the per-controller design.
    pub open spec fn spec_unified(self) -> bool {
        match self {
            Subsystem::Devices(_) => false,
            Subsystem::Pid(h) => h.v2,
            Subsystem::Mem(h) => h.v2,
            Subsystem::CpuSet(h) => h.v2,
            Subsystem::CpuAcct(h) => h.v2,
            Subsystem::Cpu(h) => h.v2,
            Subsystem::Freezer(h) => h.v2,
            Subsystem::NetCls(h) => h.v2,
            Subsystem::BlkIo(h) => h.v2,
            Subsystem::PerfEvent(h) => h.v2,
            Subsystem::NetPrio(h) => h.v2,
            Subsystem::HugeTlb(h) => h.v2,
            Subsystem::Rdma(h) => h.v2,
            Subsystem::Systemd(h) => h.v2,
        }
    }

    /// The controller kind this subsystem is tagged with.
    pub fn kind(&self) -> (k: Controllers)
        ensures
            k == self.spec_kind(),
    {
        match self {
            Subsystem::Pid(_) => Controllers::Pids,
            Subsystem::Mem(_) => Controllers::Mem,
            Subsystem::CpuSet(_) => Controllers::CpuSet,
            Subsystem::CpuAcct(_) => Controllers::CpuAcct,
            Subsystem::Cpu(_) => Controllers::Cpu,
            Subsystem::Devices(_) => Controllers::Devices,
            Subsystem::Freezer(_) => Controllers::Freezer,
            Subsystem::NetCls(_) => Controllers::NetCls,
            Subsystem::BlkIo(_) => Controllers::BlkIo,
            Subsystem::PerfEvent(_) => Controllers::PerfEvent,
            Subsystem::NetPrio(_) => Controllers::NetPrio,
            Subsystem::HugeTlb(_) => Controllers::HugeTlb,
            Subsystem::Rdma(_) => Controllers::Rdma,
            Subsystem::Systemd(_) => Controllers::Systemd,
        }
    }

    /// The safe accessor for the devices controller: yields it only when the
    /// tag matches, instead of assuming the tag and inviting undefined
    /// behavior on a mismatch.
    pub fn as_devices(&self) -> (r: Option<&DevicesController>)
        ensures
            match self {
                Subsystem::Devices(c) => r matches Some(d) && *d == c,
                _ => r is None,
            },
    {
        match self {
            Subsystem::Devices(c) => Some(c),
            _ => None,
        }
    }
}

/// Builds the subsystem of the given kind over the given mount point and
/// root.
fn make_subsystem(kind: Controllers, point: String, root: String, unified: bool) -> (s: Subsystem)
    ensures
        s.spec_kind() == kind,
        s.spec_path() == point@,
        s.spec_base() == root@,
        s.spec_unified() == (if kind is Devices {
            false
        } else {
            unified
        }),
{
    match kind {
        Controllers::Pids => Subsystem::Pid(ControllerHandle::new(point, root, unified)),
        Controllers::Mem => Subsystem::Mem(ControllerHandle::new(point, root, unified)),
        Controllers::CpuSet => Subsystem::CpuSet(ControllerHandle::new(point, root, unified)),
        Controllers::CpuAcct => Subsystem::CpuAcct(ControllerHandle::new(point, root, unified)),
        Controllers::Cpu => Subsystem::Cpu(ControllerHandle::new(point, root, unified)),
        Controllers::Devices => Subsystem::Devices(DevicesController::new(point, root)),
        Controllers::Freezer => Subsystem::Freezer(ControllerHandle::new(point, root, unified)),
        Controllers::NetCls => Subsystem::NetCls(ControllerHandle::new(point, root, unified)),
        Controllers::BlkIo => Subsystem::BlkIo(ControllerHandle::new(point, root, unified)),
        Controllers::PerfEvent => Subsystem::PerfEvent(
            ControllerHandle::new(point, root, unified),
        ),
        Controllers::NetPrio => Subsystem::NetPrio(ControllerHandle::new(point, root, unified)),
        Controllers::HugeTlb => Subsystem::HugeTlb(ControllerHandle::new(point, root, unified)),
        Controllers::Rdma => Subsystem::Rdma(ControllerHandle::new(point, root, unified)),
        Controllers::Systemd => Subsystem::Systemd(ControllerHandle::new(point, root, unified)),
    }
}

/// Whether a mount record's superblock options contain the tag.
pub open spec fn spec_opts_contain(m: MountinfoV, tag: Seq<char>) -> bool {
    exists|i: int| 0 <= i < m.super_opts.len() && m.super_opts[i] == tag
}

/// The mount point and mount root of the first cgroup-family record whose
/// superblock options carry the tag, if any.
pub open spec fn spec_get_mount_point(ms: Seq<MountinfoV>, tag: Seq<char>) -> Option<
    (Seq<char>, Seq<char>),
>
    decreases ms.len(),
{
    if ms.len() == 0 {
        None
    } else if spec_is_cgroup_mount(ms[0]) && spec_opts_contain(ms[0], tag) {
        Some((ms[0].mount_point, ms[0].mount_root))
    } else {
        spec_get_mount_point(ms.drop_first(), tag)
    }
}

/// The fixed order in which the per-controller hierarchy reports attached
/// controllers. Block I/O stands before memory on purpose: the kernel's
/// writeback accounting requires the block-I/O association of a task to be
/// established before the memory controller's.
pub open spec fn spec_decl_order() -> Seq<Controllers> {
    seq![
        Controllers::BlkIo,
        Controllers::Mem,
        Controllers::Pids,
        Controllers::CpuSet,
        Controllers::CpuAcct,
        Controllers::Cpu,
        Controllers::Devices,
        Controllers::Freezer,
        Controllers::NetCls,
        Controllers::PerfEvent,
        Controllers::NetPrio,
        Controllers::HugeTlb,
        Controllers::Rdma,
        Controllers::Systemd,
    ]
}

/// The kinds of `kinds` that have a mount in `ms`, in the order of `kinds`.
pub open spec fn spec_present_kinds(ms: Seq<MountinfoV>, kinds: Seq<Controllers>) -> Seq<
    Controllers,
>
    decreases kinds.len(),
{
    if kinds.len() == 0 {
        Seq::<Controllers>::empty()
    } else {
        let prev = spec_present_kinds(ms, kinds.drop_last());
        if spec_get_mount_point(ms, spec_controller_tag(kinds[kinds.len() - 1])) is Some {
            prev.push(kinds[kinds.len() - 1])
        } else {
            prev
        }
    }
}

/// The kinds the per-controller hierarchy over snapshot `ms` reports, in
/// order.
pub open spec fn spec_v1_kinds(ms: Seq<MountinfoV>) -> Seq<Controllers> {
    spec_present_kinds(ms, spec_decl_order())
}

/// Whether `subs` is exactly the subsystem list the per-controller
/// hierarchy over snapshot `ms` must report: the present kinds in
/// declaration order, each resolved to its mount point and root, none
/// marked unified.
pub open spec fn spec_v1_subsystems_match(ms: Seq<MountinfoV>, subs: Seq<Subsystem>) -> bool {
    let kinds = spec_v1_kinds(ms);
    &&& subs.len() == kinds.len()
    &&& forall|i: int|
        0 <= i < subs.len() ==> {
            &&& (#[trigger] subs[i]).spec_kind() == kinds[i]
            &&& spec_get_mount_point(ms, spec_controller_tag(kinds[i])) matches Some(pr)
                && subs[i].spec_path() == pr.0 && subs[i].spec_base() == pr.1
            &&& !subs[i].spec_unified()
        }
}

/// The parent directory of a path, in the way this library resolves the
/// hierarchy root above a mount point: everything before the last slash,
/// the lone slash for a top-level entry, nothing for the root itself or an
/// empty path, and the empty string for a bare name.
pub open spec fn spec_parent(p: Seq<char>) -> Option<Seq<char>> {
    if p.len() == 0 || p == seq!['/'] {
        None
    } else {
        match spec_rfind(p, '/') {
            None => Some(Seq::<char>::empty()),
            Some(i) => if i == 0 {
                Some(seq!['/'])
            } else {
                Some(p.take(i))
            },
        }
    }
}

/// The first cgroup-family record of a snapshot, if any.
pub open spec fn spec_first_cgroup(ms: Seq<MountinfoV>) -> Option<MountinfoV>
    decreases ms.len(),
{
    if ms.len() == 0 {
        None
    } else if spec_is_cgroup_mount(ms[0]) {
        Some(ms[0])
    } else {
        spec_first_cgroup(ms.drop_first())
    }
}

/// The root the per-controller hierarchy over snapshot `ms` resolves to:
/// the parent directory of the first cgroup mount point, if both exist.
pub open spec fn spec_v1_root(ms: Seq<MountinfoV>) -> Option<Seq<char>> {
    match spec_first_cgroup(ms) {
        Some(m) => spec_parent(m.mount_point),
        None => None,
    }
}

proof fn lemma_rfind_range(s: Seq<char>, c: char)
    ensures
        spec_rfind(s, c) matches Some(k) ==> 0 <= k < s.len(),
    decreases s.len(),
{
    if s.len() > 0 && s[s.len() - 1] != c {
        lemma_rfind_range(s.drop_last(), c);
    }
}

/// The parent directory of the path `p`, as `spec_parent` defines it.
fn parent_chars(p: &Vec<char>) -> (r: Option<Vec<char>>)
    ensures
        match r {
            Some(v) => spec_parent(p@) == Some(v@),
            None => spec_parent(p@) is None,
        },
{
    let n = p.len();
    if n == 0 || (n == 1 && p[0] == '/') {
        proof {
            if n == 1 {
                assert(p@ =~= seq!['/']);
            }
        }
        return None;
    }
    proof {
        if p@.len() == 1 {
            assert(p@[0] != '/');
            assert(p@ != seq!['/']);
        } else {
            assert(p@.len() != seq!['/'].len());
            assert(p@ != seq!['/']);
        }
    }
    proof {
        lemma_rfind_range(p@, '/');
    }
    match crate::text::rfind_char(p, '/') {
        None => Some(Vec::new()),
        Some(i) => {
            if i == 0 {
                let mut v: Vec<char> = Vec::new();
                v.push('/');
                assert(v@ =~= seq!['/']);
                Some(v)
            } else {
                Some(crate::text::subrange_chars(p, 0, i))
            }
        },
    }
}

/// The per-controller ("v1") hierarchy: an immutable snapshot of the
/// cgroup-family mount records taken when it was built.
#[derive(Debug, Clone)]
pub struct V1 {
    /// The cgroup-family mount records, in mount-table order.
    pub mountinfo: Vec<Mountinfo>,
}

impl View for V1 {
    type V = Seq<MountinfoV>;

    open spec fn view(&self) -> Seq<MountinfoV> {
        self.mountinfo.deep_view()
    }
}

impl V1 {
    /// A per-controller hierarchy over the given mount-record snapshot,
    /// normally the cgroup records of the process's own mount table.
    pub fn new(mountinfo: Vec<Mountinfo>) -> (h: V1)
        ensures
            h@ == mountinfo.deep_view(),
    {
        V1 { mountinfo }
    }

    /// Resolves the mount point and mount root backing a controller kind:
    /// the first snapshot record of the cgroup family whose superblock
    /// options carry the kind's tag.
    pub fn get_mount_point(&self, controller: Controllers) -> (r: Option<(String, String)>)
        ensures
            match r {
                Some(pr) => spec_get_mount_point(self@, spec_controller_tag(controller))
                    == Some((pr.0@, pr.1@)),
                None => spec_get_mount_point(self@, spec_controller_tag(controller)) is None,
            },
    {
        let tag = controller.to_string();
        let n = self.mountinfo.len();
        let mut i: usize = 0;
        proof {
            assert(self@.skip(0) =~= self@);
        }
        while i < n
            invariant
                0 <= i <= n == self.mountinfo@.len(),
                self@.len() == n,
                tag@ == spec_controller_tag(controller),
                spec_get_mount_point(self@, tag@) == spec_get_mount_point(
                    self@.skip(i as int),
                    tag@,
                ),
            decreases n - i,
        {
            proof {
                assert(self.mountinfo@[i as int].deep_view() == self@[i as int]);
            }
            let m = &self.mountinfo[i];
            let is_cg = str_eq_str(m.fs_type.0.as_str(), "cgroup");
            let mut found = false;
            let n_opts = m.super_opts.len();
            let mut k: usize = 0;
            while k < n_opts
                invariant
                    0 <= k <= n_opts == m.super_opts@.len(),
                    tag@ == spec_controller_tag(controller),
                    found <==> exists|j: int|
                        0 <= j < k && m.super_opts@[j]@ == tag@,
                decreases n_opts - k,
            {
                if !found && m.super_opts[k] == tag {
                    found = true;
                    assert(m.super_opts@[k as int]@ == tag@);
                }
                k += 1;
            }
            proof {
                assert(self@[i as int] == m@);
                assert(forall|j: int|
                    0 <= j < m.super_opts@.len() ==> m@.super_opts[j] == #[trigger] m
                        .super_opts@[j]@);
                if found {
                    let j = choose|j: int| 0 <= j < n_opts && m.super_opts@[j]@ == tag@;
                    assert(m@.super_opts[j] == tag@);
                    assert(spec_opts_contain(m@, tag@));
                } else {
                    assert(!spec_opts_contain(m@, tag@)) by {
                        if spec_opts_contain(m@, tag@) {
                            let j = choose|j: int|
                                0 <= j < m@.super_opts.len() && m@.super_opts[j] == tag@;
                            assert(m.super_opts@[j]@ == tag@);
                        }
                    }
                }
            }
            if is_cg && found {
                proof {
                    let t = self@.skip(i as int);
                    assert(t[0] == self@[i as int]);
                }
                return Some((m.mount_point.clone(), m.mount_root.clone()));
            }
            proof {
                let t = self@.skip(i as int);
                assert(t[0] == self@[i as int]);
                assert(!(spec_is_cgroup_mount(t[0]) && spec_opts_contain(t[0], tag@)));
                assert(t.drop_first() =~= self@.skip(i + 1));
            }
            i += 1;
        }
        proof {
            assert(self@.skip(n as int) =~= Seq::<MountinfoV>::empty());
        }
        None
    }

    /// The attached subsystems, resolved from the snapshot in the fixed
    /// declaration order; a kind without a mount is absent.
    pub fn subsystems(&self) -> (r: Vec<Subsystem>)
        ensures
            spec_v1_subsystems_match(self@, r@),
    {
        let mut kinds: Vec<Controllers> = Vec::new();
        kinds.push(Controllers::BlkIo);
        kinds.push(Controllers::Mem);
        kinds.push(Controllers::Pids);
        kinds.push(Controllers::CpuSet);
        kinds.push(Controllers::CpuAcct);
        kinds.push(Controllers::Cpu);
        kinds.push(Controllers::Devices);
        kinds.push(Controllers::Freezer);
        kinds.push(Controllers::NetCls);
        kinds.push(Controllers::PerfEvent);
        kinds.push(Controllers::NetPrio);
        kinds.push(Controllers::HugeTlb);
        kinds.push(Controllers::Rdma);
        kinds.push(Controllers::Systemd);
        assert(kinds@ =~= spec_decl_order());
        let n = kinds.len();
        let mut r: Vec<Subsystem> = Vec::new();
        let mut j: usize = 0;
        proof {
            assert(spec_decl_order().take(0) =~= Seq::<Controllers>::empty());
        }
        while j < n
            invariant
                0 <= j <= n == kinds@.len(),
                kinds@ == spec_decl_order(),
                r@.len() == spec_present_kinds(self@, kinds@.take(j as int)).len(),
                forall|i: int|
                    0 <= i < r@.len() ==> {
                        let pres = spec_present_kinds(self@, kinds@.take(j as int));
                        &&& (#[trigger] r@[i]).spec_kind() == pres[i]
                        &&& spec_get_mount_point(self@, spec_controller_tag(pres[i]))
                            matches Some(pr) && r@[i].spec_path() == pr.0 && r@[i].spec_base()
                            == pr.1
                        &&& !r@[i].spec_unified()
                    },
            decreases n - j,
        {
            let ghost pres_j = spec_present_kinds(self@, kinds@.take(j as int));
            proof {
                assert(kinds@.take(j + 1).drop_last() =~= kinds@.take(j as int));
                assert(kinds@.take(j + 1)[j as int] == kinds@[j as int]);
            }
            let k = kinds[j];
            match self.get_mount_point(k) {
                Some(pr) => {
                    let sub = make_subsystem(k, pr.0, pr.1, false);
                    r.push(sub);
                    proof {
                        let pres = spec_present_kinds(self@, kinds@.take(j + 1));
                        assert(pres =~= pres_j.push(kinds@[j as int]));
                    }
                },
                None => {
                    proof {
                        let pres = spec_present_kinds(self@, kinds@.take(j + 1));
                        assert(pres =~= pres_j);
                    }
                },
            }
            j += 1;
        }
        proof {
            assert(kinds@.take(n as int) =~= kinds@);
        }
        r
    }

    /// The hierarchy root: the parent directory of the first cgroup mount
    /// point of the snapshot. Yields nothing when the snapshot has no
    /// cgroup mount, or its mount point has no parent.
    pub fn root(&self) -> (r: Option<String>)
        ensures
            match r {
                Some(s) => spec_v1_root(self@) == Some(s@),
                None => spec_v1_root(self@) is None,
            },
    {
        let n = self.mountinfo.len();
        let mut i: usize = 0;
        proof {
            assert(self@.skip(0) =~= self@);
        }
        while i < n
            invariant
                0 <= i <= n == self.mountinfo@.len(),
                self@.len() == n,
                spec_first_cgroup(self@) == spec_first_cgroup(self@.skip(i as int)),
            decreases n - i,
        {
            proof {
                assert(self.mountinfo@[i as int].deep_view() == self@[i as int]);
            }
            let m = &self.mountinfo[i];
            let is_cg = str_eq_str(m.fs_type.0.as_str(), "cgroup");
            proof {
                let t = self@.skip(i as int);
                assert(t[0] == self@[i as int]);
                assert(t.drop_first() =~= self@.skip(i + 1));
            }
            if is_cg {
                let mp = str_to_chars(m.mount_point.as_str());
                return match parent_chars(&mp) {
                    Some(v) => Some(chars_to_string(&v)),
                    None => None,
                };
            }
            i += 1;
        }
        proof {
            assert(self@.skip(n as int) =~= Seq::<MountinfoV>::empty());
        }
        None
    }
}

/// Whenever the per-controller hierarchy reports both the block-I/O and the
/// memory controller, block I/O stands strictly before memory. The kernel's
/// writeback accounting depends on tasks joining the block-I/O controller
/// first.
pub proof fn lemma_blkio_before_memory(ms: Seq<MountinfoV>, i: int, j: int)
    requires
        0 <= i < spec_v1_kinds(ms).len(),
        0 <= j < spec_v1_kinds(ms).len(),
        spec_v1_kinds(ms)[i] == Controllers::BlkIo,
        spec_v1_kinds(ms)[j] == Controllers::Mem,
    ensures
        i < j,
{
    lemma_present_front_positions(ms, spec_decl_order());
    assert(spec_decl_order()[0] == Controllers::BlkIo);
    assert(spec_decl_order()[1] == Controllers::Mem);
    assert(i == 0);
    assert(j >= 1);
}

/// In the present-kinds list over a declaration order that starts with
/// block I/O then memory, and never names either again, block I/O can only
/// stand at index 0 and memory at index 0 or 1; and if block I/O stands at
/// 0, memory cannot.
proof fn lemma_present_front_positions(ms: Seq<MountinfoV>, kinds: Seq<Controllers>)
    requires
        kinds.len() >= 2,
        kinds[0] == Controllers::BlkIo,
        kinds[1] == Controllers::Mem,
        forall|p: int|
            2 <= p < kinds.len() ==> kinds[p] != Controllers::BlkIo && kinds[p]
                != Controllers::Mem,
    ensures
        forall|i: int|
            0 <= i < spec_present_kinds(ms, kinds).len() && #[trigger] spec_present_kinds(
                ms,
                kinds,
            )[i] == Controllers::BlkIo ==> i == 0,
        forall|j: int|
            0 <= j < spec_present_kinds(ms, kinds).len() && #[trigger] spec_present_kinds(
                ms,
                kinds,
            )[j] == Controllers::Mem ==> j >= 1 || spec_present_kinds(ms, kinds)[0]
                != Controllers::BlkIo,
    decreases kinds.len(),
{
    let pres = spec_present_kinds(ms, kinds);
    if kinds.len() == 2 {
        let k1 = kinds.drop_last();
        let k0 = k1.drop_last();
        assert(k0 =~= Seq::<Controllers>::empty());
        assert(spec_present_kinds(ms, k0).len() == 0);
        assert(k1[0] == Controllers::BlkIo);
        let first = spec_present_kinds(ms, k1);
        assert(first.len() <= 1);
        assert(first.len() == 1 ==> first[0] == Controllers::BlkIo);
    } else {
        let prev = spec_present_kinds(ms, kinds.drop_last());
        assert(kinds.drop_last()[0] == Controllers::BlkIo);
        assert(kinds.drop_last()[1] == Controllers::Mem);
        assert(forall|p: int|
            2 <= p < kinds.drop_last().len() ==> kinds.drop_last()[p] != Controllers::BlkIo
                && kinds.drop_last()[p] != Controllers::Mem);
        lemma_present_front_positions(ms, kinds.drop_last());
        assert(kinds[kinds.len() - 1] != Controllers::BlkIo);
        assert(kinds[kinds.len() - 1] != Controllers::Mem);
    }
}

/// The well-known unified mount point, as characters.
pub open spec fn spec_unified_mountpoint() -> Seq<char> {
    "/sys/fs/cgroup"@
}

/// The controller kind an advertised token of the unified hierarchy's
/// controller list names, if this library handles it; unknown tokens are
/// ignored.
pub open spec fn spec_token_kind(t: Seq<char>) -> Option<Controllers> {
    if t == "cpu"@ {
        Some(Controllers::Cpu)
    } else if t == "io"@ {
        Some(Controllers::BlkIo)
    } else if t == "cpuset"@ {
        Some(Controllers::CpuSet)
    } else if t == "memory"@ {
        Some(Controllers::Mem)
    } else if t == "pids"@ {
        Some(Controllers::Pids)
    } else if t == "freezer"@ {
        Some(Controllers::Freezer)
    } else if t == "hugetlb"@ {
        Some(Controllers::HugeTlb)
    } else {
        None
    }
}

/// The recognized controller kinds among a token list, in token order.
pub open spec fn spec_recognized_kinds(ts: Seq<Seq<char>>) -> Seq<Controllers>
    decreases ts.len(),
{
    if ts.len() == 0 {
        Seq::<Controllers>::empty()
    } else {
        let prev = spec_recognized_kinds(ts.drop_last());
        match spec_token_kind(ts[ts.len() - 1]) {
            Some(k) => prev.push(k),
            None => prev,
        }
    }
}

/// The kinds the unified hierarchy reports for a controller-list file with
/// the given content: the advertised tokens in file order, with the
/// freezer synthesized last — the unified design carries freezing as core
/// functionality and does not advertise it.
pub open spec fn spec_v2_kinds(content: Seq<char>) -> Seq<Controllers> {
    spec_recognized_kinds(spec_split2(spec_trim(content), ' ', ' ') + seq!["freezer"@])
}

/// Whether `subs` is exactly the subsystem list the unified hierarchy
/// rooted at `root` must report for a controller list with the given
/// content: the recognized kinds in order, every subsystem rooted at the
/// unified root with an empty base, all marked unified.
pub open spec fn spec_v2_subsystems_match(
    root: Seq<char>,
    content: Seq<char>,
    subs: Seq<Subsystem>,
) -> bool {
    let kinds = spec_v2_kinds(content);
    &&& subs.len() == kinds.len()
    &&& forall|i: int|
        0 <= i < subs.len() ==> {
            &&& (#[trigger] subs[i]).spec_kind() == kinds[i]
            &&& subs[i].spec_path() == root
            &&& subs[i].spec_base() == Seq::<char>::empty()
            &&& subs[i].spec_unified()
        }
}

/// The unified ("v2") hierarchy: a single mount at the well-known root.
#[derive(Debug, Clone)]
pub struct V2 {
    /// The unified mount root.
    pub root: String,
}

impl V2 {
    /// The unified hierarchy at the well-known mount point.
    pub fn new() -> (h: V2)
        ensures
            h.root@ == spec_unified_mountpoint(),
    {
        V2 { root: String::from_str(UNIFIED_MOUNTPOINT) }
    }

    /// This is the unified design.
    pub fn v2(&self) -> (b: bool)
        ensures
            b,
    {
        true
    }

    /// The unified mount root.
    pub fn root(&self) -> (s: String)
        ensures
            s@ == self.root@,
    {
        self.root.clone()
    }

    /// The attached subsystems, derived from the content of the unified
    /// root's controller-list file. `None` stands for an unreadable file
    /// and yields no subsystems — that is "no controllers available", not
    /// an error.
    pub fn subsystems(&self, controllers: Option<&str>) -> (r: Vec<Subsystem>)
        ensures
            match controllers {
                Some(c) => spec_v2_subsystems_match(self.root@, c@, r@),
                None => r@.len() == 0,
            },
    {
        let c = match controllers {
            None => {
                return Vec::new();
            },
            Some(c) => c,
        };
        let chars = str_to_chars(c);
        let trimmed = trim_chars(&chars);
        let mut tokens = split2_chars(&trimmed, ' ', ' ');
        let ghost splitv = tokens.deep_view();
        let freezer_token = str_to_chars("freezer");
        proof {
            reveal_strlit("freezer");
        }
        tokens.push(freezer_token);
        let ghost tokensv = tokens.deep_view();
        proof {
            assert(tokensv =~~= splitv + seq!["freezer"@]);
        }
        let n = tokens.len();
        assert(n == tokensv.len()) by {
            assert(tokens.deep_view().len() == tokens@.len());
        }
        let mut r: Vec<Subsystem> = Vec::new();
        let mut i: usize = 0;
        proof {
            assert(tokensv.take(0) =~= Seq::<Seq<char>>::empty());
        }
        while i < n
            invariant
                0 <= i <= n == tokens@.len(),
                tokens.deep_view() == tokensv,
                r@.len() == spec_recognized_kinds(tokensv.take(i as int)).len(),
                forall|q: int|
                    0 <= q < r@.len() ==> {
                        let kinds = spec_recognized_kinds(tokensv.take(i as int));
                        &&& (#[trigger] r@[q]).spec_kind() == kinds[q]
                        &&& r@[q].spec_path() == self.root@
                        &&& r@[q].spec_base() == Seq::<char>::empty()
                        &&& r@[q].spec_unified()
                    },
            decreases n - i,
        {
            let ghost kinds_i = spec_recognized_kinds(tokensv.take(i as int));
            proof {
                assert(tokensv.take(i + 1).drop_last() =~= tokensv.take(i as int));
                assert(tokensv.take(i + 1)[i as int] == tokensv[i as int]);
                assert(tokens@[i as int].deep_view() == tokensv[i as int]);
                assert(tokens@[i as int].deep_view() =~= tokens@[i as int]@);
            }
            let t = &tokens[i];
            let kind: Option<Controllers> = if crate::text::chars_eq_str(t, "cpu") {
                Some(Controllers::Cpu)
            } else if crate::text::chars_eq_str(t, "io") {
                Some(Controllers::BlkIo)
            } else if crate::text::chars_eq_str(t, "cpuset") {
                Some(Controllers::CpuSet)
            } else if crate::text::chars_eq_str(t, "memory") {
                Some(Controllers::Mem)
            } else if crate::text::chars_eq_str(t, "pids") {
                Some(Controllers::Pids)
            } else if crate::text::chars_eq_str(t, "freezer") {
                Some(Controllers::Freezer)
            } else if crate::text::chars_eq_str(t, "hugetlb") {
                Some(Controllers::HugeTlb)
            } else {
                None
            };
            proof {
                assert(kind == spec_token_kind(tokensv[i as int]));
            }
            match kind {
                Some(k) => {
                    let sub = make_subsystem(k, self.root.clone(), String::new(), true);
                    proof {
                        assert(!(k is Devices));
                    }
                    r.push(sub);
                    proof {
                        let kinds = spec_recognized_kinds(tokensv.take(i + 1));
                        assert(kinds =~= kinds_i.push(k));
                    }
                },
                None => {
                    proof {
                        let kinds = spec_recognized_kinds(tokensv.take(i + 1));
                        assert(kinds =~= kinds_i);
                    }
                },
            }
            i += 1;
        }
        proof {
            assert(tokensv.take(n as int) =~= tokensv);
            assert(tokensv == spec_split2(spec_trim(c@), ' ', ' ') + seq!["freezer"@]);
        }
        r
    }
}

impl Default for V2 {
    /// The unified hierarchy at the well-known mount point.
    fn default() -> (h: V2)
        ensures
            h.root@ == spec_unified_mountpoint(),
    {
        V2::new()
    }
}

impl V1 {
    /// This is the per-controller design.
    pub fn v2(&self) -> (b: bool)
        ensures
            !b,
    {
        false
    }
}

/// One control-group hierarchy of either kernel design.
#[derive(Debug, Clone)]
pub enum Hierarchy {
    /// The per-controller ("v1") design, with its mount snapshot.
    PerController(V1),
    /// The unified ("v2") design, with its single root.
    Unified(V2),
}

impl Hierarchy {
    /// Whether this is the unified design.
    pub fn v2(&self) -> (b: bool)
        ensures
            b == (self is Unified),
    {
        match self {
            Hierarchy::PerController(_) => false,
            Hierarchy::Unified(_) => true,
        }
    }

    /// The hierarchy root: the fixed unified mount point in the unified
    /// design, the parent of the first cgroup mount point in the
    /// per-controller design.
    pub fn root(&self) -> (r: Option<String>)
        ensures
            match self {
                Hierarchy::Unified(h) => r matches Some(s) && s@ == h.root@,
                Hierarchy::PerController(h) => match r {
                    Some(s) => spec_v1_root(h@) == Some(s@),
                    None => spec_v1_root(h@) is None,
                },
            },
    {
        match self {
            Hierarchy::PerController(h) => h.root(),
            Hierarchy::Unified(h) => Some(h.root()),
        }
    }

    /// The attached subsystems. The unified design reads them from the
    /// controller-list file whose content the caller passes
    /// (`None` when the file is unreadable); the per-controller design
    /// resolves them from its snapshot and ignores the argument.
    pub fn subsystems(&self, unified_controllers: Option<&str>) -> (r: Vec<Subsystem>)
        ensures
            match self {
                Hierarchy::PerController(h) => spec_v1_subsystems_match(h@, r@),
                Hierarchy::Unified(h) => match unified_controllers {
                    Some(c) => spec_v2_subsystems_match(h.root@, c@, r@),
                    None => r@.len() == 0,
                },
            },
    {
        match self {
            Hierarchy::PerController(h) => h.subsystems(),
            Hierarchy::Unified(h) => h.subsystems(unified_controllers),
        }
    }
}

/// The hierarchy in use: the unified design when the well-known mount
/// point probes as cgroup-v2 (the caller passes the probe's result), else
/// the per-controller design over the given mount snapshot.
pub fn auto(unified: bool, mountinfo: Vec<Mountinfo>) -> (h: Hierarchy)
    ensures
        unified ==> (h matches Hierarchy::Unified(v) && v.root@ == spec_unified_mountpoint()),
        !unified ==> (h matches Hierarchy::PerController(v) && v@ == mountinfo.deep_view()),
{
    if unified {
        Hierarchy::Unified(V2::new())
    } else {
        Hierarchy::PerController(V1::new(mountinfo))
    }
}

} // verus!
