use fxcp_core::sync::passes::Moment;
use fxcp_core::version_store::archive::{
    entry_role, summary_path, wrap_compressor, wrap_import_decompressor, EntryRole, ExportFile,
    ExportItem, ImportStats, Packing, Unpacking,
};
use fxcp_core::version_store::prune::PruneStats;
use fxcp_core::version_store::{
    compute_disk_usage, compute_store_stats, format_iso, format_timestamp, left_out,
    parse_timestamp, sort_snapshots, store_name_of, FileUse, Found, SnapshotCount, SnapshotEntry,
    VersionStore,
};

#[test]
fn test_format_timestamp() {
    let s = format_timestamp(1773484800);
    assert!(s.starts_with("2026"), "expected 2026, got: {}", s);
    assert!(!s.contains(':'), "should not contain colons: {}", s);
    assert!(s.contains('T'), "should contain T separator: {}", s);
}

#[test]
fn test_parse_timestamp_roundtrip() {
    let now = std::time::SystemTime::now().duration_since(std::time::UNIX_EPOCH).unwrap();
    let s = format_timestamp(now.as_secs());
    let parsed = parse_timestamp(&s);
    assert!(parsed.is_some());
    assert_eq!(parsed, Some(now.as_secs() as i64));
}

#[test]
fn test_format_iso() {
    let s = format_iso(1773484800);
    assert!(s.contains(':'));
    assert!(s.ends_with('Z'));
}

#[test]
fn test_version_store_open() {
    let store = VersionStore::open("/tmp/test");
    assert_eq!(store.root, "/tmp/test/.foxing_versions");
}

#[test]
fn times_as_text() {
    assert_eq!(format_timestamp(1773484800), "2026-03-14T104000");
    assert_eq!(format_iso(1773484800), "2026-03-14T10:40:00Z");
    assert_eq!(store_name_of("2026-03-14T10:40:00Z"), "2026-03-14T104000");
    assert_eq!(parse_timestamp("2026-03-14T104000"), Some(1773484800));
    assert_eq!(parse_timestamp("latest"), None);
    assert_eq!(format_timestamp(u64::MAX / 2), "1970-01-01T000000");
}

fn snapshot(timestamp: &str, tag: Option<&str>, size: u64, disk: u64) -> SnapshotEntry {
    SnapshotEntry {
        timestamp: timestamp.to_string(),
        snap_type: "full".to_string(),
        tag: tag.map(|t| t.to_string()),
        files: 1,
        size_bytes: size,
        disk_usage_bytes: disk,
        source: "/src".to_string(),
        trigger: "test".to_string(),
        retention: None,
    }
}

fn three() -> Vec<SnapshotEntry> {
    vec![
        snapshot("2026-03-03T00:00:00Z", None, 30, 3),
        snapshot("2026-03-01T00:00:00Z", Some("keep"), 10, 1),
        snapshot("2026-03-02T00:00:00Z", None, 20, 2),
    ]
}

fn stamps(v: &[SnapshotEntry]) -> Vec<&str> {
    v.iter().map(|e| e.timestamp.as_str()).collect()
}

#[test]
fn snapshots_are_sorted_and_summed_up() {
    let sorted = sort_snapshots(three());
    assert_eq!(
        stamps(&sorted),
        vec!["2026-03-01T00:00:00Z", "2026-03-02T00:00:00Z", "2026-03-03T00:00:00Z"]
    );
    let stats = compute_store_stats(&sorted);
    assert_eq!((stats.snapshots, stats.total_apparent_bytes, stats.total_disk_bytes), (3, 60, 6));
    assert_eq!(stats.oldest.as_deref(), Some("2026-03-01T00:00:00Z"));
    assert_eq!(stats.newest.as_deref(), Some("2026-03-03T00:00:00Z"));
    let none = compute_store_stats(&vec![]);
    assert_eq!(none.oldest, None);
}

#[test]
fn old_snapshots_expire_unless_tagged() {
    let store = VersionStore::open("/t");
    let cutoff = Moment { secs: parse_timestamp("2026-03-02T120000").unwrap(), nanos: 0 };
    assert_eq!(store.prune_by_age(&three(), cutoff), vec!["2026-03-02T000000"]);
}

#[test]
fn surplus_snapshots_go() {
    let store = VersionStore::open("/t");
    assert_eq!(store.prune_by_count(three(), 1), vec!["2026-03-02T000000"]);
    assert!(store.prune_by_count(three(), 3).is_empty());
}

#[test]
fn snapshots_go_until_the_rest_fits() {
    let store = VersionStore::open("/t");
    let mut p = store.prune_by_size(three(), 45);
    let first = p.next().unwrap();
    assert_eq!(first, "2026-03-02T000000");
    p.on_result(true);
    assert_eq!(p.next(), None);
    let mut stats = PruneStats::default();
    stats.on_removed(2);
    assert_eq!((stats.snapshots_removed, stats.bytes_freed), (1, 2));
}

#[test]
fn indexes_are_built() {
    let store = VersionStore::open("/t");
    let index = store.rebuild_index(three(), 1773484800);
    assert_eq!(index.version, 1);
    assert_eq!(index.created, "2026-03-14T10:40:00Z");
    assert_eq!(index.snapshots.len(), 3);
    let index = store.append_to_index(Some(index), snapshot("x", None, 1, 1), 0);
    assert_eq!(index.snapshots.len(), 4);
    assert_eq!(index.created, "2026-03-14T10:40:00Z");
    let fresh = store.append_to_index(None, snapshot("x", None, 1, 1), 0);
    assert_eq!(fresh.created, "1970-01-01T00:00:00Z");
    assert_eq!(fresh.snapshots.len(), 1);
}

#[test]
fn snapshots_are_described() {
    let store = VersionStore::open("/t");
    let mut count = SnapshotCount { files: 0, size_bytes: 0 };
    count.on_stored(Some(5));
    count.on_stored(None);
    let e = store.create_snapshot(1773484800, None, "fxcp", "/src", &count, 512);
    assert_eq!(e.timestamp, "2026-03-14T10:40:00Z");
    assert_eq!((e.files, e.size_bytes, e.disk_usage_bytes), (2, 5, 512));
    let link = store.create_file_symlinks("2026-03-14T104000", "/t/a/b.txt", "a/b.txt");
    assert!(link.at.contains("b.txt"));
    assert!(link.to.is_some());
    assert!(left_out(".foxing_versions/x"));
    assert!(!left_out("data/x"));
    assert!(store.delete_snapshot("2026-03-14T10:40:00Z").contains(
        &"/t/.foxing_versions/2026-03-14T104000".to_string()
    ));
}

#[test]
fn links_lead_from_their_directory_to_the_file() {
    let to = |root: &str, file: &str, rel: &str| {
        VersionStore::open(root).create_file_symlinks("S", file, rel).to
    };
    let some = |s: &str| Some(s.to_string());
    let file = "/t/.foxing_versions/S/tree/a/b.txt";
    assert_eq!(to("/t", file, "a/b.txt"), some("../../S/tree/a/b.txt"));
    assert_eq!(to("/t", "/t/.foxing_versions/files/f", "f"), some("f"));
    assert_eq!(to("/t", "/t/.foxing_versions", "f"), some(".."));
    assert_eq!(to("t", "t/.foxing_versions/S/tree/f", "f"), some("../S/tree/f"));
    assert_eq!(to("t", "/abs//x", "f"), some("/abs//x"));
    assert_eq!(to("/t", "x", "f"), None);
    assert_eq!(to("../t", "x", "f"), None);
    assert_eq!(to("./t", "x/y", "f"), some("x/../../../y"));
    assert_eq!(to("./t", "./t/x", "f"), some("../../x"));
}

#[test]
fn stores_are_scanned() {
    let store = VersionStore::open("/t");
    let found = |name: &str, is_dir: bool| Found {
        name: name.to_string(),
        is_dir,
        summary: None,
        tree: Some((10, 4096, 2)),
    };
    let all = store.scan_snapshots(vec![
        found("2026-03-14T104000", true),
        found("latest", true),
        found("2026-03-15T104000", false),
    ]);
    assert_eq!(all.len(), 1);
    assert_eq!((all[0].files, all[0].size_bytes, all[0].disk_usage_bytes), (2, 10, 4096));
    let listed = store.list_snapshots(None, vec![found("2026-03-14T104000", true)]);
    assert_eq!(listed.len(), 1);
    let index = store.rebuild_index(three(), 0);
    assert_eq!(store.list_snapshots(Some(index), vec![]).len(), 3);
}

#[test]
fn disk_usage_is_summed_up() {
    let files = vec![FileUse { len: 10, blocks: 8 }, FileUse { len: 20, blocks: 0 }];
    assert_eq!(compute_disk_usage(&files), Some((30, 4096)));
    assert_eq!(compute_disk_usage(&vec![FileUse { len: u64::MAX, blocks: 0 }, FileUse { len: 1, blocks: 0 }]), None);
}

fn stored(path: &str, hash: Option<[u8; 32]>, size: u64) -> ExportFile {
    ExportFile { path: path.to_string(), hash, size }
}

#[test]
fn exports_store_each_content_once() {
    let store = VersionStore::open("/t");
    let files = vec![
        stored("/t/.foxing_versions/s/tree/a", Some([1; 32]), 10),
        stored("/elsewhere/a", Some([2; 32]), 99),
        stored("/t/.foxing_versions/s/tree/b", Some([1; 32]), 10),
        stored("/t/.foxing_versions/s/tree/c", None, 3),
        stored("/t/.foxing_versions/u/tree/c", None, 3),
        stored("/t/.foxing_versions/u/tree/d", Some([2; 32]), 7),
    ];
    let (items, stats) = store.export(&files, 2);
    assert_eq!(items.len(), 5);
    let data = |item: &ExportItem, expected: &str| match item {
        ExportItem::Data { path } => assert_eq!(path, expected),
        other => panic!("{:?}", other),
    };
    data(&items[0], "s/tree/a");
    match &items[1] {
        ExportItem::Reference { path, line } => {
            assert_eq!(path, "dedup/s/tree/b");
            assert_eq!(line, &format!("s/tree/b|{}|10\n", "01".repeat(32)));
        }
        other => panic!("{:?}", other),
    }
    data(&items[2], "s/tree/c");
    data(&items[3], "u/tree/c");
    data(&items[4], "u/tree/d");
    assert_eq!(stats.snapshots_exported, 2);
    assert_eq!((stats.total_files, stats.total_apparent_bytes), (5, 33));
    assert_eq!((stats.unique_chunks, stats.dedup_chunks), (4, 1));
    assert_eq!((stats.unique_bytes, stats.dedup_bytes), (23, 10));
    assert_eq!(store.import("s/tree/a").as_deref(), Some("/t/.foxing_versions/s/tree/a"));
}

#[test]
fn archive_entries_have_roles() {
    assert_eq!(entry_role("index.json"), EntryRole::Index);
    assert_eq!(entry_role(&summary_path("2026")), EntryRole::Summary);
    assert_eq!(entry_role("dedup/s/tree/a"), EntryRole::Reference);
    assert_eq!(entry_role("s/tree/a"), EntryRole::File);
    let mut stats = ImportStats::default();
    stats.on_entry(EntryRole::File, 5);
    stats.on_entry(EntryRole::Reference, 5);
    stats.on_entry(EntryRole::Index, 5);
    assert_eq!((stats.files_restored, stats.bytes_restored), (1, 5));
    assert_eq!((stats.dedup_refs, stats.metadata_files), (1, 1));
    let store = VersionStore::open("/t");
    assert_eq!(store.import("s/tree/a"), Some("/t/.foxing_versions/s/tree/a".to_string()));
    let e = VersionStore::inspect_archive("dedup/s/tree/a".to_string(), 3);
    assert!(e.is_dedup_ref && !e.is_metadata);
}

#[test]
fn packings_are_named() {
    assert_eq!(wrap_compressor("none"), Packing::Plain);
    assert_eq!(wrap_compressor("zstd"), Packing::Zstd(3));
    assert_eq!(wrap_compressor("zstd:9"), Packing::Zstd(9));
    assert_eq!(wrap_compressor("lz4"), Packing::Lz4);
    assert_eq!(wrap_compressor("gzip"), Packing::Gzip);
    assert_eq!(wrap_import_decompressor("zstd"), Unpacking::Zstd);
    assert_eq!(wrap_import_decompressor("xz"), Unpacking::Xz);
    assert_eq!(wrap_import_decompressor("none"), Unpacking::Plain);
}
