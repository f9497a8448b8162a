use fxcp_core::chunker::GearChunker;
use fxcp_core::compress::{
    compress_chunk, compress_flag, decompress_chunk, detect_compression, fits_lz4, is_lz4_readable,
    packed_or_plain, FLAG_COMPRESS_GZIP, FLAG_COMPRESS_LZ4, FLAG_COMPRESS_NONE, FLAG_COMPRESS_XZ,
    FLAG_COMPRESS_ZSTD,
};
use fxcp_core::error::{FxcpError, IoKind};
use fxcp_core::fxar::dedup::{
    archive_path, build_dedup_tables, process_file, ChunkTable, DedupTables, FileMeta,
    FxarManifest, FxarManifestEntry, PackedChunk, ProcessedFile,
};
use fxcp_core::fxar::layout::{write_archive, write_archive_seekable, ArchiveParts};
use fxcp_core::fxar::reader::{
    all_chunks_known, assemble_file, attributes_of, check_space, inspect_archive,
    read_archive_stream, read_stream_start, FxarImportStats, FxarReader,
};
use fxcp_core::fxar::records::{
    detect_format, ChunkIndexEntry, FxarFooter, FxarHeader, CHUNK_INDEX_ENTRY_SIZE, FOOTER_SIZE,
    FXAR_VERSION, HEADER_SIZE,
};

fn file(path: &str, contents: &[u8], compressor: &str) -> ProcessedFile {
    let meta = FileMeta {
        size: contents.len() as u64,
        mode: 0o100644,
        mtime: 1773484800,
        uid: 1000,
        gid: 1000,
    };
    process_file(path.to_string(), meta, contents, &vec![], compressor)
}

fn joined(parts: &ArchiveParts, blobs: &Vec<Vec<u8>>) -> Vec<u8> {
    let mut out = parts.head.clone();
    for b in blobs {
        out.extend_from_slice(b);
    }
    out.extend_from_slice(&parts.tail);
    out
}

fn on_disk(parts: &ArchiveParts, blobs: &Vec<Vec<u8>>) -> Vec<u8> {
    let mut out = joined(parts, blobs);
    let mut header = Vec::new();
    parts.header.write_to(&mut header);
    out[..HEADER_SIZE].copy_from_slice(&header);
    out
}

fn manifest_of(t: DedupTables, snapshots: &[&str]) -> (FxarManifest, Vec<ChunkIndexEntry>) {
    let manifest = FxarManifest {
        version: 2,
        created: "2026-03-13T00:00:00Z".to_string(),
        files: t.files,
        snapshots: snapshots.iter().map(|s| s.to_string()).collect(),
    };
    (manifest, t.entries)
}

fn message(e: FxcpError) -> (IoKind, String) {
    match e {
        FxcpError::Io { kind, message, .. } => (kind, message),
        other => panic!("{:?}", other),
    }
}

#[test]
fn test_header_roundtrip() {
    let chunker = GearChunker::default();
    let mut header = FxarHeader::new(FLAG_COMPRESS_ZSTD, &chunker);
    header.index_offset = 12345;
    header.manifest_offset = 64;
    header.chunk_count = 42;

    let mut buf = Vec::new();
    header.write_to(&mut buf);
    assert_eq!(buf.len(), HEADER_SIZE);

    let parsed = FxarHeader::read_from(&buf[..]).unwrap();
    assert_eq!(parsed.magic, *b"FXAR");
    assert_eq!(parsed.version, FXAR_VERSION);
    assert_eq!(parsed.flags, FLAG_COMPRESS_ZSTD);
    assert_eq!(parsed.index_offset, 12345);
    assert_eq!(parsed.manifest_offset, 64);
    assert_eq!(parsed.chunk_count, 42);
    assert_eq!(parsed.chunk_min, chunker.min as u32);
    assert_eq!(parsed.chunk_avg, chunker.avg as u32);
    assert_eq!(parsed.chunk_max, chunker.max as u32);
}

#[test]
fn test_header_bad_magic() {
    let buf = [0u8; HEADER_SIZE];
    let result = FxarHeader::read_from(&buf[..]);
    assert!(result.is_err());
}

#[test]
fn test_chunk_index_entry_roundtrip() {
    let entry = ChunkIndexEntry {
        blake3_hash: [0xAB; 32],
        size: 65536,
        offset: 999999,
        compressed_size: 32768,
    };

    let mut buf = Vec::new();
    entry.write_to(&mut buf);
    assert_eq!(buf.len(), CHUNK_INDEX_ENTRY_SIZE);

    let parsed = ChunkIndexEntry::read_from(&buf[..]).unwrap();
    assert_eq!(parsed.blake3_hash, [0xAB; 32]);
    assert_eq!(parsed.size, 65536);
    assert_eq!(parsed.offset, 999999);
    assert_eq!(parsed.compressed_size, 32768);
}

#[test]
fn test_footer_roundtrip() {
    let checksum = FxarFooter::compute_checksum(64, 12345, 42);
    let footer = FxarFooter::new(64, 12345, 42);

    let mut buf = Vec::new();
    footer.write_to(&mut buf);
    assert_eq!(buf.len(), FOOTER_SIZE);

    let parsed = FxarFooter::read_from(&buf[..]).unwrap();
    assert_eq!(parsed.manifest_offset, 64);
    assert_eq!(parsed.index_offset, 12345);
    assert_eq!(parsed.chunk_count, 42);
    assert_eq!(parsed.checksum, checksum);
}

#[test]
fn test_compress_decompress_roundtrip() {
    let data = b"hello world, this is test data for compression";

    for compress in &["none", "zstd", "zstd:1", "lz4", "gzip"] {
        let compressed = compress_chunk(data, compress);
        let flags = compress_flag(compress);
        let decompressed = decompress_chunk(&compressed, flags).unwrap();
        assert_eq!(decompressed, data, "roundtrip failed for {}", compress);
    }
}

#[test]
fn test_export_import_roundtrip() {
    let snap = "2026-03-12T084500";
    let test_data = b"hello world, this is test data for FXAR v2 export/import roundtrip";
    let processed = vec![
        file(&archive_path(snap, "file1.txt"), test_data, "zstd"),
        file(&archive_path(snap, "file2.txt"), test_data, "zstd"),
        file(&archive_path(snap, "file3.dat"), &vec![0xABu8; 10_000], "zstd"),
    ];
    let tables = build_dedup_tables(processed);
    let (parts, stats) = write_archive_seekable(&tables, b"{}", "zstd", 1).unwrap();

    assert_eq!(stats.snapshots_exported, 1);
    assert_eq!(stats.total_files, 3);
    assert!(stats.unique_chunks > 0);
    assert!(stats.dedup_chunks > 0, "expected dedup, got {} dedup chunks", stats.dedup_chunks);

    let archive_data = on_disk(&parts, &tables.blobs);
    assert_eq!(&archive_data[..4], b"FXAR");
    assert_eq!(archive_data.len() as u64, stats.archive_bytes);

    let reader = FxarReader::open(&archive_data).unwrap();
    assert_eq!(reader.read_manifest().unwrap(), b"{}");
    let index = reader.read_chunk_index().unwrap();
    let (manifest, _) = manifest_of(tables, &[snap]);
    let inspect = inspect_archive(reader.header.version, manifest, &index);
    assert_eq!(inspect.version, 2);
    assert_eq!(inspect.total_files, 3);
    assert!(inspect.chunk_count > 0);
    assert_eq!(inspect.unique_files, 2);
    assert_eq!(inspect.total_apparent_bytes, 10_132);

    let store = reader.restore_all(&inspect.files, None).unwrap();
    let mut import_stats = FxarImportStats::default();
    let restored: Vec<Option<Vec<u8>>> =
        inspect.files.iter().map(|f| assemble_file(f, &store)).collect();
    for (f, r) in inspect.files.iter().zip(&restored) {
        import_stats.note_file(f, r.is_some());
    }
    assert_eq!(import_stats.files_restored, 3);
    assert_eq!(import_stats.chunks_failed, 0);
    assert_eq!(import_stats.bytes_restored, 10_132);

    assert_eq!(inspect.files[0].path, "2026-03-12T084500/tree/file1.txt");
    assert_eq!(restored[0].as_deref(), Some(&test_data[..]));
    assert_eq!(inspect.files[2].path, "2026-03-12T084500/tree/file3.dat");
    assert_eq!(restored[2], Some(vec![0xABu8; 10_000]));
}

#[test]
fn test_selective_restore() {
    let snap = "2026-03-12T084500";
    let tables = build_dedup_tables(vec![
        file(&archive_path(snap, "keep.txt"), b"keep this", "none"),
        file(&archive_path(snap, "subdir/nested.txt"), b"nested data", "none"),
    ]);
    let (parts, _) = write_archive_seekable(&tables, b"{}", "none", 1).unwrap();
    let data = on_disk(&parts, &tables.blobs);

    let reader = FxarReader::open(&data).unwrap();
    let index = reader.read_chunk_index().unwrap();
    let (manifest, _) = manifest_of(tables, &[snap]);
    let keep_path = manifest.files.iter().find(|f| f.path.contains("keep.txt")).unwrap().path.clone();
    let data = reader.restore_file(&manifest, &index, &keep_path).unwrap();
    assert_eq!(data, b"keep this");

    let missing = reader.restore_file(&manifest, &index, "nowhere").unwrap_err();
    assert_eq!(message(missing), (IoKind::NotFound, "file not found in archive".to_string()));
    assert_eq!(reader.list_files(manifest).len(), 2);
}

#[test]
fn test_stream_roundtrip() {
    let snap = "2026-03-12T090000";
    let tables =
        build_dedup_tables(vec![file(&archive_path(snap, "stream_test.bin"), &vec![0x55u8; 5000], "zstd")]);
    let (parts, written) = write_archive(&tables, b"{\"version\":2}", "zstd", 1).unwrap();
    let buf = joined(&parts, &tables.blobs);
    assert_eq!(buf.len() as u64, written.archive_bytes);
    assert_eq!(&buf[buf.len() - 32..buf.len() - 28], b"FXAF");

    let start = read_stream_start(&buf).unwrap();
    assert_eq!(start.manifest, b"{\"version\":2}");
    let store = read_archive_stream(&buf, &start, &tables.files, Some(20_000_000)).unwrap();
    let mut stats = FxarImportStats::default();
    let restored = assemble_file(&tables.files[0], &store).unwrap();
    stats.note_file(&tables.files[0], true);

    assert_eq!(stats.files_restored, 1);
    assert_eq!(stats.chunks_failed, 0);
    assert_eq!(tables.files[0].path, "2026-03-12T090000/tree/stream_test.bin");
    assert_eq!(restored, vec![0x55u8; 5000]);
}

#[test]
fn test_dedup_across_snapshots() {
    let mut processed = Vec::new();
    for (snap_ts, change_byte) in &[("2026-03-12T080000", 0xAAu8), ("2026-03-12T090000", 0xBBu8)] {
        processed.push(file(&archive_path(snap_ts, "stable.dat"), &vec![0x42u8; 50_000], "none"));
        processed.push(file(
            &archive_path(snap_ts, "changing.dat"),
            &vec![*change_byte; 10_000],
            "none",
        ));
    }
    let tables = build_dedup_tables(processed);
    let (_, stats) = write_archive(&tables, b"{}", "none", 2).unwrap();

    assert_eq!(stats.snapshots_exported, 2);
    assert_eq!(stats.total_files, 4);
    assert!(
        stats.dedup_chunks > 0,
        "expected cross-snapshot dedup, got {} dedup chunks",
        stats.dedup_chunks
    );
    assert_eq!(stats.chunk_count, stats.unique_chunks + stats.dedup_chunks);
}

#[test]
fn header_errors() {
    assert_eq!(message(FxarHeader::read_from(&[0u8; 63]).unwrap_err()).0, IoKind::UnexpectedEof);
    assert_eq!(
        message(FxarHeader::read_from(&[0u8; 64]).unwrap_err()),
        (IoKind::InvalidData, "not an FXAR archive".to_string())
    );
    let mut header = FxarHeader::new(0, &GearChunker::default());
    header.version = 9;
    let mut buf = Vec::new();
    header.write_to(&mut buf);
    match FxarReader::open(&buf) {
        Err(e) => assert_eq!(message(e), (IoKind::InvalidData, "unsupported FXAR version: 9".to_string())),
        Ok(_) => panic!(),
    }
}

#[test]
fn footer_errors() {
    let mut buf = Vec::new();
    FxarFooter::new(64, 100, 3).write_to(&mut buf);
    assert!(FxarFooter::read_from(&buf[..31]).is_err());
    let mut other = buf.clone();
    other[0] = b'X';
    assert!(FxarFooter::read_from(&other).is_err());
    assert_eq!(
        message(FxarFooter::read_from(&other).unwrap_err()),
        (IoKind::InvalidData, "invalid FXAR footer".to_string())
    );
    assert_eq!(FxarFooter::compute_checksum(64, 100, 3), 460);
}

#[test]
fn damaged_chunks_are_found() {
    let tables = build_dedup_tables(vec![file("a", b"some bytes", "none")]);
    let (parts, _) = write_archive_seekable(&tables, b"{}", "none", 1).unwrap();
    let good = on_disk(&parts, &tables.blobs);
    let mut bad = good.clone();
    let at = bad.len() - 1;
    bad[at] ^= 0xFF;
    let reader = FxarReader::open(&bad).unwrap();
    let index = reader.read_chunk_index().unwrap();
    let offset = index[0].offset;
    let e = reader.read_chunk_data(&index[0]).unwrap_err();
    assert_eq!(
        message(e),
        (IoKind::InvalidData, format!("BLAKE3 mismatch for chunk at offset {}", offset))
    );
    assert!(reader.read_all_chunks(&index).is_err());

    let start = read_stream_start(&bad).unwrap();
    let e = read_archive_stream(&bad, &start, &tables.files, None).unwrap_err();
    assert_eq!(message(e), (IoKind::InvalidData, "chunk BLAKE3 mismatch at index 0".to_string()));

    let short = &good[..good.len() - 1];
    let start = read_stream_start(short).unwrap();
    let e = read_archive_stream(short, &start, &tables.files, None).unwrap_err();
    assert_eq!(message(e).0, IoKind::UnexpectedEof);
    let reader = FxarReader::open(short).unwrap();
    assert_eq!(message(reader.restore_all(&tables.files, None).unwrap_err()).0, IoKind::UnexpectedEof);
}

#[test]
fn files_that_lost_their_hash_are_not_put_together() {
    let mut tables = build_dedup_tables(vec![file("a", b"some bytes", "none")]);
    tables.files[0].blake3 = "00".repeat(32);
    assert_eq!(assemble_file(&tables.files[0], &tables.blobs), None);
    tables.files[0].blake3 = "zz".to_string();
    assert_eq!(assemble_file(&tables.files[0], &tables.blobs), None);
    assert!(all_chunks_known(&tables.files, 1));
    assert!(!all_chunks_known(&tables.files, 0));
    let mut stats = FxarImportStats::default();
    stats.note_file(&tables.files[0], false);
    assert_eq!(stats.chunks_failed, 1);
    assert_eq!(stats.chunks_verified, 1);
    assert_eq!(stats.files_restored, 0);
}

#[test]
fn space_is_checked() {
    let tables = build_dedup_tables(vec![file("a", &vec![1u8; 100], "none")]);
    let needed = 100 + 10 * 1024 * 1024;
    assert!(check_space(&tables.files, Some(needed)).is_ok());
    assert!(check_space(&tables.files, None).is_ok());
    assert_eq!(
        message(check_space(&tables.files, Some(needed - 1)).unwrap_err()),
        (
            IoKind::Other,
            "insufficient disk space: 10485859 bytes available, 10485860 bytes needed".to_string()
        )
    );
}

#[test]
fn attributes_are_kept_as_hexadecimal() {
    let attrs = vec![
        ("user.foxing.sig".to_string(), vec![0xDE, 0xAD]),
        ("user.other".to_string(), vec![1]),
    ];
    let meta = FileMeta { size: 1, mode: 0, mtime: 0, uid: 0, gid: 0 };
    let f = process_file("a".to_string(), meta, b"x", &attrs, "none");
    assert_eq!(f.xattr, vec![("user.foxing.sig".to_string(), "dead".to_string())]);
    assert_eq!(f.blake3, *blake3::hash(b"x").as_bytes());
    let mut t = build_dedup_tables(vec![f]);
    t.files[0].xattr.push(("user.bad".to_string(), "xyz".to_string()));
    assert_eq!(attributes_of(&t.files[0]), vec![("user.foxing.sig".to_string(), vec![0xDE, 0xAD])]);
}

#[test]
fn chunks_are_stored_once() {
    let mut table = ChunkTable::new();
    let chunk = |b: u8| PackedChunk { hash: [b; 32], size: 1, packed: vec![b] };
    assert_eq!(table.store(chunk(1)), (0, true));
    assert_eq!(table.store(chunk(2)), (1, true));
    assert_eq!(table.store(chunk(1)), (0, false));
    assert_eq!(table.blobs, vec![vec![1], vec![2]]);
}

#[test]
fn compressors_have_flags() {
    assert_eq!(compress_flag("none"), FLAG_COMPRESS_NONE);
    assert_eq!(compress_flag("zstd:19"), FLAG_COMPRESS_ZSTD);
    assert_eq!(compress_flag("lz4"), FLAG_COMPRESS_LZ4);
    assert_eq!(compress_flag("gzip"), FLAG_COMPRESS_GZIP);
    assert_eq!(compress_flag("xz:6"), FLAG_COMPRESS_XZ);
    assert_eq!(compress_flag("anything"), FLAG_COMPRESS_ZSTD);
    let zeros = vec![0u8; 100_000];
    for name in ["zstd", "zstd:1", "lz4", "gzip"] {
        assert!(compress_chunk(&zeros, name).len() < zeros.len(), "{}", name);
    }
    assert_eq!(packed_or_plain(None, b"ab"), b"ab");
    assert_eq!(packed_or_plain(Some(vec![7]), b"ab"), vec![7]);
}

#[test]
fn unpacking_errors() {
    let (kind, text) = message(decompress_chunk(b"garbage", FLAG_COMPRESS_ZSTD).unwrap_err());
    assert_eq!(kind, IoKind::InvalidData);
    assert!(text.starts_with("zstd: "));
    let (kind, text) = message(decompress_chunk(b"g", FLAG_COMPRESS_LZ4).unwrap_err());
    assert_eq!(kind, IoKind::InvalidData);
    assert_eq!(text, "lz4: expected another byte, found none");
    let (_, text) = message(decompress_chunk(&[4, 0, 0, 0, 0x20, 9], FLAG_COMPRESS_LZ4).unwrap_err());
    assert_eq!(text, "lz4: literal is out of bounds of the input");
    let mut long = vec![0xFF; 16_843_009 + 5];
    long[..5].copy_from_slice(&[1, 0, 0, 0, 0xF0]);
    assert!(is_lz4_readable(&long));
    let (_, text) = message(decompress_chunk(&long, FLAG_COMPRESS_LZ4).unwrap_err());
    assert_eq!(text, "lz4: expected another byte, found none");
    long.push(1);
    assert!(!is_lz4_readable(&long));
    let (kind, text) = message(decompress_chunk(&long, FLAG_COMPRESS_LZ4).unwrap_err());
    assert_eq!(kind, IoKind::InvalidData);
    assert_eq!(text, "lz4: a length is too large");
    let (kind, text) = message(decompress_chunk(b"garbage all along", FLAG_COMPRESS_GZIP).unwrap_err());
    assert_eq!(kind, IoKind::InvalidInput);
    assert_eq!(text, "invalid gzip header");
    assert_eq!(
        message(decompress_chunk(&[0x1f, 0x8b], FLAG_COMPRESS_GZIP).unwrap_err()).0,
        IoKind::UnexpectedEof
    );
    assert_eq!(
        message(decompress_chunk(b"garbage all along", FLAG_COMPRESS_XZ).unwrap_err()).0,
        IoKind::InvalidData
    );
    assert_eq!(message(decompress_chunk(b"", 77).unwrap_err()).1, "unknown compression: 77");
}

#[test]
fn long_runs_among_literals_are_unpacked() {
    let n: usize = 17_000_000;
    let mut block = (n as u32).to_le_bytes().to_vec();
    block.push(0xF0);
    block.resize(block.len() + (n - 15) / 255, 0xFF);
    block.push(((n - 15) % 255) as u8);
    block.resize(block.len() + n, 0xFF);
    assert!(is_lz4_readable(&block));
    let data = decompress_chunk(&block, FLAG_COMPRESS_LZ4).unwrap();
    assert_eq!(data.len(), n);
    assert!(data.iter().all(|b| *b == 0xFF));

    let data: Vec<u8> = (0..100_000u32).flat_map(|i| (i / 7).to_le_bytes()).collect();
    let block = compress_chunk(&data, "lz4");
    assert!(is_lz4_readable(&block));
    assert_eq!(decompress_chunk(&block, FLAG_COMPRESS_LZ4).unwrap(), data);
}

#[test]
fn formats_are_told_apart() {
    assert_eq!(detect_format(b"FXARxxxx").unwrap(), ("fxar2", *b"FXAR"));
    let zstd = [0x28, 0xB5, 0x2F, 0xFD];
    assert_eq!(detect_format(&zstd).unwrap(), ("unknown", zstd));
    assert_eq!(detect_format(&[0x1F, 0x8B, 0, 0]).unwrap().0, "unknown");
    assert_eq!(detect_format(&[0xFD, 0x37, 0x7A, 0x58]).unwrap().0, "unknown");
    assert_eq!(detect_format(&[0x04, 0x22, 0x4D, 0x18]).unwrap().0, "unknown");
    assert_eq!(detect_format(b"dir/").unwrap().0, "tar");
    assert!(detect_format(b"abc").is_err());
    assert_eq!(detect_compression(&[0x1F, 0x8B, 8, 0]), Some("gzip"));
    assert_eq!(detect_compression(&zstd), Some("zstd"));
    assert_eq!(detect_compression(&compress_chunk(b"data", "zstd")), Some("zstd"));
    assert_eq!(detect_compression(&[0xFD, 0x2F, 0xB5, 0x28]), None);
    assert_eq!(detect_compression(b"plain text"), None);
}

#[test]
fn manifest_entries_describe_their_files() {
    let tables = build_dedup_tables(vec![file("p", b"x", "none"), file("q", b"x", "none")]);
    let e: &FxarManifestEntry = &tables.files[1];
    assert_eq!((e.path.as_str(), e.size, e.mode, e.mtime), ("q", 1, 0o100644, 1773484800));
    assert_eq!(e.chunks, vec![0]);
    assert_eq!(e.blake3, blake3::hash(b"x").to_hex().to_string());
    assert_eq!(tables.entries.len(), 1);
}

#[test]
fn lz4_takes_chunks() {
    assert!(fits_lz4(0));
    assert!(fits_lz4(2 * 1024 * 1024));
    assert!(!fits_lz4(usize::MAX));
}
