use fxcp_core::constants::{AVG_EVENT_OVERHEAD_BYTES, PROFILE_SSD_VALUES};
use fxcp_core::error::{CopyErrorKind, FxcpError, IoKind};
use fxcp_core::governor::{
    detect_hypervisor, names_virtual_vendor, Detection, Governor, Limits, Pace,
};
use fxcp_core::metrics::{initialize_metrics, BatchedAtomicCounter, BatchedCounter};
use fxcp_core::operations::probe::{
    apply_lock, btrfs_create_snapshot, btrfs_create_subvol, btrfs_resolve_inode,
    detect_container, probe_btrfs_quotas, probe_capabilities, resolve_backing_device,
    resolve_sysfs_block_name, AtomicLimits, Capabilities, CleanupGuard, DmStackInfo, Findings,
    LockAction,
};
use fxcp_core::path::{
    components_of, join_path, names_below_of, parent_of, path_starts_with, same_path_exec,
    spelled_of, strip_prefix,
};
use fxcp_core::text::{
    byte_len_of, decimal_of, parse_decimal, parse_i32, signed_decimal_of, split_lines, split_on,
    split_once, split_words, trimmed,
};

fn some(s: &str) -> Option<String> {
    Some(s.to_string())
}

#[test]
fn hypervisors_are_detected() {
    let tool = |success, out: &str| Some(Detection { success, output: out.to_string() });
    assert_eq!(detect_hypervisor(&tool(true, "kvm\n"), &None, &None), some("kvm"));
    assert_eq!(detect_hypervisor(&tool(true, "none\n"), &some(" QEMU \n"), &None), some("qemu"));
    assert_eq!(detect_hypervisor(&tool(false, "kvm"), &some("Dell"), &some("xen\n")), some("xen"));
    assert_eq!(detect_hypervisor(&tool(true, " "), &None, &None), None);
    assert!(names_virtual_vendor("amazon ec2"));
    assert!(!names_virtual_vendor("lenovo"));
}

#[test]
fn pressure_is_read() {
    let text = "full avg10=9.99 avg60=0\nsome avg10=1.25 avg60=0.5 total=1\n";
    assert_eq!(Governor::read_psi(text), some("1.25"));
    assert_eq!(Governor::read_psi("some \n"), None);
    assert_eq!(Governor::read_psi("some avg10\n"), None);
    assert_eq!(Governor::read_psi(""), None);
}

#[test]
fn governors_count_failures() {
    let mut g = Governor::new(false, &some("kvm"), 10, 0);
    assert_eq!(g.limits, Limits::Widened);
    assert_eq!(Governor::new(true, &some("kvm"), 0, 0).limits, Limits::Relaxed);
    assert_eq!(Governor::new(false, &None, 0, 0).limits, Limits::Given);
    assert_eq!(g.failure_rate(), (0, 1));
    g.signal_copy_result(true);
    g.signal_copy_result(false);
    assert!(!g.current_stress_score());
    g.signal_copy_result(false);
    assert_eq!(g.failure_rate(), (2, 3));
    assert!(g.current_stress_score());
    assert!(g.is_system_stressed(false, true));
    for _ in 0..998 {
        g.signal_copy_result(false);
    }
    assert!(g.is_system_stressed(false, true));
    assert_eq!(g.failure_rate(), (0, 1));
    assert!(!g.is_system_stressed(false, true));
    g.set_min_throughput(99);
    g.signal_copy_result(true);
    g.reset_failure_window();
    assert_eq!((g.copy_success_count, g.min_throughput_bytes_sec), (0, 99));
}

#[test]
fn work_is_paced() {
    let g = Governor::new(false, &None, 10, 0);
    assert_eq!(g.pace_hydration(true, false, 5), Pace::Run);
    assert_eq!(g.pace_hydration(false, true, 5), Pace::Wait { ms: 10 });
    assert_eq!(g.pace_hydration(false, false, 5), Pace::Throttle { ms: 5 });
    assert_eq!(g.pace_hydration(false, false, 0), Pace::Wait { ms: 10 });
    assert_eq!(Governor::new(false, &None, 0, 0).pace_hydration(false, true, 5), Pace::Run);
}

#[test]
fn counters_hand_on_in_batches() {
    let mut c = BatchedCounter::new(3);
    assert_eq!((c.inc(), c.inc(), c.inc()), (0, 0, 3));
    assert_eq!(c.inc_by(2), 0);
    assert_eq!(c.inc_by(5), 7);
    assert_eq!(c.flush(), 0);
    c.inc();
    assert_eq!(c.flush(), 1);
    assert_eq!(initialize_metrics(3), 3145728);
}

#[test]
fn shared_counters_add_up() {
    let mut global = 0u64;
    let mut c = BatchedAtomicCounter::new(2);
    c.inc(&mut global);
    assert_eq!(global, 0);
    c.inc(&mut global);
    assert_eq!((global, c.local_count), (2, 0));
    c.dec(&mut global);
    c.dec(&mut global);
    assert_eq!(global, 0);
    c.dec(&mut global);
    c.flush(&mut global);
    assert_eq!(global, u64::MAX);
}

#[test]
fn files_are_guarded() {
    let mut g = CleanupGuard::new(vec!["/a".to_string(), "/b".to_string()]);
    g.register("/c".to_string());
    g.disarm("//b/");
    assert_eq!(g.files, vec!["/a", "/c"]);
    assert!(CleanupGuard::empty().files.is_empty());
}

#[test]
fn containers_are_detected() {
    let env = "engine=\"podman-4.9\"\nname=\"x\"\nrootless=1\n";
    let c = detect_container(&some(env), false);
    assert!(c.in_container && c.rootless);
    assert_eq!(c.engine, some("podman-4.9"));
    let c = detect_container(&some(""), true);
    assert!(c.in_container && !c.rootless);
    assert_eq!(c.engine, None);
    let c = detect_container(&None, true);
    assert_eq!((c.in_container, c.engine), (true, some("docker")));
    assert!(!detect_container(&None, false).in_container);
}

#[test]
fn devices_are_found() {
    let table = "\
22 1 8:1 / / rw,relatime shared:1 - ext4 /dev/sda1 rw
30 22 253:0 / /data rw,relatime shared:2 - xfs /dev/mapper/vg-data rw
31 22 0:40 / /over rw,relatime shared:3 - overlay overlay rw
";
    assert_eq!(resolve_backing_device("/data/x", table), some("/dev/mapper/vg-data"));
    assert_eq!(resolve_backing_device("/home", table), some("/dev/sda1"));
    assert_eq!(resolve_backing_device("/over/x", table), None);
    assert_eq!(resolve_sysfs_block_name("/dev/sda1", &None), some("sda1"));
    assert_eq!(resolve_sysfs_block_name("/dev/mapper/vg-data", &some("../dm-3")), some("dm-3"));
    assert_eq!(resolve_sysfs_block_name("/dev/mapper/vg-data", &None), None);
}

#[test]
fn device_stacks_are_walked() {
    let mut d = DmStackInfo::default();
    assert_eq!(d.physical_block_size, 512);
    d.on_device(&some("CRYPT-LUKS2-abc\n"), &some("luks\n"));
    assert!(d.has_crypt);
    assert_eq!(d.crypt_sector_size, 4096);
    assert_eq!(d.on_slaves("dm-0", &Some(vec!["dm-1".to_string()])), some("dm-1"));
    d.on_device(&some("LVM-xyz"), &some("vg-tpool"));
    assert!(d.has_thin);
    d.on_device(&some("VDO-1"), &some("stratis-1"));
    assert!(d.has_vdo && d.has_stratis);
    d.on_device(&some("CRYPT-PLAIN-1"), &None);
    assert_eq!(d.crypt_sector_size, 512);
    d.on_device(&some("INTEGRITY-1"), &None);
    assert!(d.has_integrity);
    assert_eq!(d.stack_depth, 5);
    d.on_device(&None, &None);
    assert_eq!(d.stack_depth, 5);
    let many = Some(vec!["sda".to_string(), "sdb".to_string()]);
    assert_eq!(d.on_slaves("dm-1", &many), None);
    assert_eq!(d.base_device, some("sda"));
    assert_eq!(d.on_slaves("sdc", &None), None);
    assert_eq!(d.base_device, some("sdc"));
    d.on_queue(&some("4096\n"), &some("junk"));
    assert_eq!((d.physical_block_size, d.optimal_io_size), (4096, 0));
}

#[test]
fn capabilities_are_put_together() {
    let none = Findings {
        atomic: None,
        uncached_io: false,
        magic: None,
        seek_hole: true,
        quotas: false,
        reflink: true,
    };
    let container = || detect_container(&None, false);
    let c = probe_capabilities(&none, None, container());
    assert!(c.seek_hole && c.reflink && c.exchange_range && !c.atomic_writes && !c.is_nfs);
    let c = probe_capabilities(&Findings { magic: Some(0x6969), ..none }, None, container());
    assert!(c.is_nfs);
    let c = probe_capabilities(&Findings { magic: Some(0xF2F52010), ..none }, None, container());
    assert_eq!((c.atomic_writes, c.atomic_min_bytes, c.atomic_max_bytes), (true, 4096, u32::MAX));
    let limits = AtomicLimits { mask: 0x1_0000, unit_min: 512, unit_max: 65536 };
    let c = probe_capabilities(&Findings { atomic: Some(limits), ..none }, None, container());
    assert_eq!((c.atomic_writes, c.atomic_min_bytes, c.atomic_max_bytes), (true, 512, 65536));
    assert!(Capabilities::default().exchange_range);
}

#[test]
fn btrfs_names() {
    let id = [0, 1, 2, 3, 4, 5, 6, 7, 8, 9, 10, 11, 12, 13, 14, 255];
    assert_eq!(
        probe_btrfs_quotas(&id).0,
        "/sys/fs/btrfs/00010203-0405-0607-0809-0a0b0c0d0eff/qgroups"
    );
    assert!(probe_btrfs_quotas(&id).1.ends_with("/quota_override"));
    assert_eq!(btrfs_resolve_inode(b"ab\0c"), b"ab");
    assert_eq!(btrfs_resolve_inode(b"abc"), b"abc");
    assert_eq!(btrfs_create_snapshot("snap").unwrap(), b"snap");
    let text = |r: Result<Vec<u8>, FxcpError>| match r {
        Err(FxcpError::Config(m)) => m,
        other => panic!("{:?}", other),
    };
    assert_eq!(text(btrfs_create_snapshot("a\0b")), "Invalid snapshot name");
    assert_eq!(text(btrfs_create_snapshot(&"x".repeat(4040))), "Snapshot name too long");
    assert_eq!(text(btrfs_create_subvol("a\0b")), "Invalid subvol name");
    assert_eq!(text(btrfs_create_subvol(&"x".repeat(4040))), "Subvolume name too long");
    assert_eq!(btrfs_create_subvol(&"x".repeat(4039)).unwrap().len(), 4039);
    assert_eq!(apply_lock(8), LockAction::Unlock);
    assert_eq!(apply_lock(2), LockAction::Lock { flags: 6 });
}

#[test]
fn errors_are_classified() {
    let io = |kind| FxcpError::Io { kind, errno: None, message: "m".to_string() };
    assert_eq!(io(IoKind::NotFound).copy_error_kind(), CopyErrorKind::TargetNotFound);
    assert_eq!(io(IoKind::PermissionDenied).copy_error_kind(), CopyErrorKind::Permanent);
    assert_eq!(io(IoKind::TimedOut).copy_error_kind(), CopyErrorKind::Timeout);
    assert_eq!(io(IoKind::Interrupted).copy_error_kind(), CopyErrorKind::Transient);
    assert_eq!(FxcpError::Security("x".to_string()).copy_error_kind(), CopyErrorKind::Permanent);
    assert_eq!(FxcpError::Json("x".to_string()).copy_error_kind(), CopyErrorKind::Transient);
    assert_eq!(io(IoKind::Other).message(""), "IO: m");
    assert_eq!(FxcpError::System(22).message("EINVAL: Invalid argument"), "System: EINVAL: Invalid argument");
    let traced = FxcpError::Traced { correlation_id: 7, message: "m".to_string() };
    assert_eq!(traced.message(""), "Tracing Error (7): m");
}

#[test]
fn paths_and_components() {
    assert_eq!(components_of("/a//b/./c/"), vec!["/", "a", "b", "c"]);
    assert!(same_path_exec("/a/b/", "/a//b"));
    assert_eq!(join_path("/a", "b"), "/a/b");
    assert_eq!(join_path("/a", "/b"), "/b");
    assert_eq!(parent_of("/a/b"), some("/a"));
    assert_eq!(parent_of("/"), None);
    assert_eq!(strip_prefix("/a/b/c", "/a"), some("b/c"));
    assert_eq!(strip_prefix("/a", "/b"), None);
    assert_eq!(spelled_of("/a//b/."), "/a/b");
    assert_eq!(names_below_of("/a/b/c", "/a"), vec!["b", "c"]);
}

#[test]
fn texts() {
    assert_eq!(decimal_of(0), "0");
    assert_eq!(decimal_of(u64::MAX), u64::MAX.to_string());
    assert_eq!(signed_decimal_of(i64::MIN), i64::MIN.to_string());
    assert_eq!(trimmed(" \ta b\u{a0}\n"), "a b");
    assert_eq!(split_words("  a  b\tc "), vec!["a", "b", "c"]);
    assert_eq!(split_on("a,,b", ','), vec!["a", "", "b"]);
    assert_eq!(split_lines("a\r\nb\n\nc"), vec!["a", "b", "", "c"]);
    assert_eq!(split_once("k=v=w", '='), Some(("k".to_string(), "v=w".to_string())));
    assert_eq!(parse_decimal("+12", 100), Some(12));
    assert_eq!(parse_decimal("101", 100), None);
    assert_eq!(parse_decimal("", 100), None);
    assert_eq!(parse_i32("-2147483648"), Some(i32::MIN));
    assert_eq!(parse_i32("2147483648"), None);
    assert_eq!(byte_len_of("aé"), 3);
    assert_eq!(AVG_EVENT_OVERHEAD_BYTES, 384);
    assert_eq!(PROFILE_SSD_VALUES, (131072, 8388608, 8, 64));
}

#[test]
fn parents_and_remainders_stay_as_written() {
    for (path, parent) in [
        ("/x//y/z", some("/x//y")),
        ("/x//y", some("/x")),
        ("a/./b", some("a")),
        ("a/b//.", some("a")),
        ("///a", some("/")),
        ("//a/b", some("//a")),
        ("/./a", some("/")),
        ("./a", some(".")),
        (".", some("")),
        ("./.", some("")),
        ("a", some("")),
        ("..", some("")),
        ("a/../b", some("a/..")),
        ("", None),
        ("//", None),
        ("/.", None),
    ] {
        let std_parent = std::path::Path::new(path).parent();
        assert_eq!(std_parent.map(|p| p.to_str().unwrap().to_string()), parent, "{}", path);
        assert_eq!(parent_of(path), parent, "{}", path);
    }
    for (path, root, rest) in [
        ("/a//b//c/", "/a", "b//c"),
        ("/a/./b", "/a", "b"),
        ("/a//b/.", "/", "a//b"),
        ("./a//b", "", "./a//b"),
        ("./a/./b/", ".", "a/./b"),
        ("/a//", "/a", ""),
        ("x//y/", "", "x//y"),
    ] {
        let std_rest = std::path::Path::new(path).strip_prefix(root).unwrap();
        assert_eq!(std_rest.to_str().unwrap(), rest, "{}", path);
        assert_eq!(strip_prefix(path, root), some(rest), "{} {}", path, root);
    }
}

#[test]
fn relative_paths_join_back() {
    for (path, root) in [
        ("/a//b/./c", "/a"),
        ("/a/b/c", "/a/b/c/"),
        ("./x/y", "."),
        ("x/../y", "x"),
        ("/", "/"),
        ("x//y/", ""),
    ] {
        let rel = strip_prefix(path, root).unwrap();
        let back = join_path(root, &rel);
        assert!(same_path_exec(&back, path), "{} from {}: {}", path, root, back);
        assert!(same_path_exec(&spelled_of(path), path));
        assert!(path_starts_with(&back, root));
    }
    assert_eq!(strip_prefix("/ab", "/a"), None);
}
