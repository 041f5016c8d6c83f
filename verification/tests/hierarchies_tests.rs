//! Tests of the mount-record parser and the two hierarchy variants.

use cgroups_rs::devices::DeviceType;
use cgroups_rs::hierarchies::{
    parse_mountinfo, parse_mountinfo_for_line, Controllers, Hierarchy, Mountinfo,
    Subsystem, V1, V2, UNIFIED_MOUNTPOINT,
};

#[test]
fn test_parse_mount() {
    let mountinfo = vec![
        ("29 26 0:26 / /sys/fs/cgroup/cpuset,cpu,cpuacct rw,nosuid,nodev,noexec,relatime shared:10 - cgroup cgroup rw,cpuset,cpu,cpuacct",
         Mountinfo{mount_root: "/".to_string(), mount_point: "/sys/fs/cgroup/cpuset,cpu,cpuacct".to_string(), fs_type: ("cgroup".to_string(), None), super_opts: vec![
            "rw".to_string(),
            "cpuset".to_string(),
            "cpu".to_string(),
            "cpuacct".to_string(),
         ]}),
        ("121 1731 0:42 / /shm rw,nosuid,nodev,noexec,relatime shared:68 master:66 - tmpfs shm rw,size=65536k",
         Mountinfo{mount_root: "/".to_string(), mount_point: "/shm".to_string(), fs_type: ("tmpfs".to_string(), None), super_opts: vec![
            "rw".to_string(),
            "size=65536k".to_string(),
         ]}),
        ("121 1731 0:42 / /shm rw,nosuid,nodev,noexec,relatime shared:68 master:66 - tmpfs.123 shm rw,size=65536k",
         Mountinfo{mount_root: "/".to_string(), mount_point: "/shm".to_string(), fs_type: ("tmpfs".to_string(), Some("123".to_string())), super_opts: vec![
            "rw".to_string(),
            "size=65536k".to_string(),
         ]}),
    ];

    for mi in mountinfo {
        let info = parse_mountinfo_for_line(mi.0).unwrap();
        assert_eq!(info, mi.1)
    }
}

#[test]
fn test_parse_mount_rejects_bad_shapes() {
    // No " - " separator, or two of them.
    assert_eq!(parse_mountinfo_for_line(""), None);
    assert_eq!(parse_mountinfo_for_line("29 26 0:26 / /x rw shared:10"), None);
    assert_eq!(
        parse_mountinfo_for_line("a - b - c d e f g h i j k"),
        None
    );
    // Too few fields in the first half.
    assert_eq!(parse_mountinfo_for_line("29 26 0:26 / - cgroup cgroup rw"), None);
    // Too few fields in the second half.
    assert_eq!(
        parse_mountinfo_for_line("29 26 0:26 / /x rw shared:10 - cgroup cgroup"),
        None
    );
}

#[test]
fn test_fs_type_splits_at_first_dot() {
    // The filesystem-type token splits once, at its first dot: everything
    // after it is the sub-type.
    let info = parse_mountinfo_for_line("29 26 0:26 / /x rw shared:10 - a.b.c cgroup rw").unwrap();
    assert_eq!(info.fs_type, ("a".to_string(), Some("b.c".to_string())));
    let info = parse_mountinfo_for_line("29 26 0:26 / /x rw shared:10 - tmpfs.123 shm rw").unwrap();
    assert_eq!(info.fs_type, ("tmpfs".to_string(), Some("123".to_string())));
}

fn cgroup_mount(point: &str, opts: &[&str]) -> Mountinfo {
    Mountinfo {
        mount_root: "/".to_string(),
        mount_point: point.to_string(),
        fs_type: ("cgroup".to_string(), None),
        super_opts: opts.iter().map(|s| s.to_string()).collect(),
    }
}

#[test]
fn test_parse_mountinfo_filters_to_cgroup() {
    let table = "\
29 26 0:26 / /sys/fs/cgroup/devices rw,nosuid shared:10 - cgroup cgroup rw,devices
30 26 0:27 / /shm rw,nosuid shared:11 - tmpfs shm rw,size=65536k
31 26 0:28 / /sys/fs/cgroup/memory rw,nosuid shared:12 - cgroup cgroup rw,memory
garbage line
";
    let records = parse_mountinfo(table);
    assert_eq!(records.len(), 2);
    assert_eq!(records[0].mount_point, "/sys/fs/cgroup/devices");
    assert_eq!(records[1].mount_point, "/sys/fs/cgroup/memory");
}

#[test]
fn test_v1_get_mount_point() {
    let v1 = V1::new(vec![
        cgroup_mount("/sys/fs/cgroup/devices", &["rw", "devices"]),
        cgroup_mount("/sys/fs/cgroup/memory", &["rw", "memory"]),
    ]);
    let (point, root) = v1.get_mount_point(Controllers::Devices).unwrap();
    assert_eq!(point, "/sys/fs/cgroup/devices");
    assert_eq!(root, "/");
    assert_eq!(v1.get_mount_point(Controllers::Cpu), None);
    assert!(!v1.v2());
}

#[test]
fn test_v1_subsystems_blkio_before_memory() {
    // Even when the mount table lists memory first, the subsystem list
    // keeps block I/O strictly before memory.
    let v1 = V1::new(vec![
        cgroup_mount("/sys/fs/cgroup/memory", &["rw", "memory"]),
        cgroup_mount("/sys/fs/cgroup/blkio", &["rw", "blkio"]),
        cgroup_mount("/sys/fs/cgroup/devices", &["rw", "devices"]),
    ]);
    let subs = v1.subsystems();
    let kinds: Vec<Controllers> = subs.iter().map(|s| s.kind()).collect();
    let blkio = kinds.iter().position(|k| *k == Controllers::BlkIo).unwrap();
    let mem = kinds.iter().position(|k| *k == Controllers::Mem).unwrap();
    assert!(blkio < mem);
    assert_eq!(
        kinds,
        vec![Controllers::BlkIo, Controllers::Mem, Controllers::Devices]
    );
    // The devices subsystem is reachable through the safe accessor alone.
    let dev = subs
        .iter()
        .find(|s| s.kind() == Controllers::Devices)
        .unwrap();
    let c = dev.as_devices().unwrap();
    assert_eq!(c.path, "/sys/fs/cgroup/devices");
    assert_eq!(c.base, "/");
    assert!(subs[0].as_devices().is_none());
    let payload = c.allow_device(DeviceType::Char, 1, 6, &[]);
    assert_eq!(payload, "c 1:6 ");
}

#[test]
fn test_v1_root() {
    let v1 = V1::new(vec![cgroup_mount(
        "/sys/fs/cgroup/cpuset",
        &["rw", "cpuset"],
    )]);
    assert_eq!(v1.root(), Some("/sys/fs/cgroup".to_string()));
    let empty = V1::new(vec![]);
    assert_eq!(empty.root(), None);
}

#[test]
fn test_v2_subsystems_from_controller_list() {
    let v2 = V2::new();
    assert_eq!(v2.root(), UNIFIED_MOUNTPOINT);
    assert!(v2.v2());
    // Tokens in file order, unknown tokens ignored, freezer synthesized last.
    let subs = v2.subsystems(Some("cpuset cpu io memory hugetlb pids rdma misc\n"));
    let kinds: Vec<Controllers> = subs.iter().map(|s| s.kind()).collect();
    assert_eq!(
        kinds,
        vec![
            Controllers::CpuSet,
            Controllers::Cpu,
            Controllers::BlkIo,
            Controllers::Mem,
            Controllers::HugeTlb,
            Controllers::Pids,
            Controllers::Freezer,
        ]
    );
    // Every subsystem is rooted at the unified mount point with an empty
    // base and the unified flag set; devices never appears in v2.
    for s in &subs {
        match s {
            Subsystem::Devices(_) => panic!("devices controller in a unified hierarchy"),
            Subsystem::Pid(h)
            | Subsystem::Mem(h)
            | Subsystem::CpuSet(h)
            | Subsystem::CpuAcct(h)
            | Subsystem::Cpu(h)
            | Subsystem::Freezer(h)
            | Subsystem::NetCls(h)
            | Subsystem::BlkIo(h)
            | Subsystem::PerfEvent(h)
            | Subsystem::NetPrio(h)
            | Subsystem::HugeTlb(h)
            | Subsystem::Rdma(h)
            | Subsystem::Systemd(h) => {
                assert_eq!(h.path, UNIFIED_MOUNTPOINT);
                assert_eq!(h.base, "");
                assert!(h.v2);
            }
        }
    }
    // An unreadable controller list means no subsystems, not an error.
    assert_eq!(v2.subsystems(None).len(), 0);
    // An empty-but-readable list still carries the synthesized freezer.
    let subs = v2.subsystems(Some(""));
    let kinds: Vec<Controllers> = subs.iter().map(|s| s.kind()).collect();
    assert_eq!(kinds, vec![Controllers::Freezer]);
}

#[test]
fn test_auto_picks_variant() {
    let h = cgroups_rs::hierarchies::auto(true, vec![]);
    assert!(h.v2());
    assert_eq!(h.root(), Some(UNIFIED_MOUNTPOINT.to_string()));
    assert!(matches!(h, Hierarchy::Unified(_)));

    let snapshot = vec![cgroup_mount("/sys/fs/cgroup/blkio", &["rw", "blkio"])];
    let h = cgroups_rs::hierarchies::auto(false, snapshot);
    assert!(!h.v2());
    assert_eq!(h.root(), Some("/sys/fs/cgroup".to_string()));
    let subs = h.subsystems(None);
    assert_eq!(subs.len(), 1);
    assert_eq!(subs[0].kind(), Controllers::BlkIo);
}

#[test]
fn test_controller_tags() {
    assert_eq!(Controllers::BlkIo.to_string(), "blkio");
    assert_eq!(Controllers::Mem.to_string(), "memory");
    assert_eq!(Controllers::NetCls.to_string(), "net_cls");
    assert_eq!(Controllers::PerfEvent.to_string(), "perf_event");
    assert_eq!(Controllers::Systemd.to_string(), "name=systemd");
}
