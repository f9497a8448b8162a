use fxcp_core::errno::{EINVAL, ENOSYS, EXDEV};
use fxcp_core::error::{FxcpError, IoKind};
use fxcp_core::hashing::{
    compute_dir_hash, get_lite_threshold_bytes, hash_file_full, hash_file_lite,
    is_hashing_enabled, needs_tail, set_hashing_enabled, set_lite_threshold_kb,
    verify_blake3, verify_incremental, HashSettings, Sampled,
};
use fxcp_core::merkle::{
    verify_with_merkle, DirtyRange, MerkleBuilder, MerkleSignature, MerkleTree,
};
use fxcp_core::security::{
    calc_dir_integrity_hash_target, canonicalize_safe, check_and_lock_dir_integrity,
    check_capacity, check_sync_marker, clone_error, commit_epoch, create_version_snapshot,
    get_target_epoch, get_valid_dir_hash, hashes_tail, is_dir_metadata_synced,
    hashed_tail, is_filesystem_compressed, open_beneath, version_of, open_mode, path_within_root, record_snapshot,
    revert_snapshot, set_file_attr, write_dir_integrity_hash, write_sync_marker, BeneathFailure,
    DirEntryMeta, DirIdentity, DirMeta, FileFacts, FsSpace, Reversion,
};
use fxcp_core::sidecar::{
    accept_merkle, get_dir_hash, get_dir_sidecar_path, get_merkle_signature, get_metadata,
    get_sidecar_path, get_sync_signature, is_dirty, keeps_metadata, remove_metadata,
    removal_error_is_harmless, resolve_key_variants, set_dirty_flag, set_merkle_signature,
    set_metadata, set_sync_signature, AfterRemove, MetaMap, SyncSignature,
};

#[test]
fn capacity_is_checked() {
    let space = |blocks, files| Some(FsSpace { blocks_available: blocks, block_size: 1024, files_available: files });
    assert!(check_capacity(space(2048, 1000), 2));
    assert!(!check_capacity(space(2047, 1000), 2));
    assert!(!check_capacity(space(2048, 999), 2));
    assert!(check_capacity(None, 1 << 40));
    assert!(is_filesystem_compressed(Some(0xF2F52010)));
    assert!(!is_filesystem_compressed(Some(0xEF53)));
    assert!(!is_filesystem_compressed(None));
}

#[test]
fn clone_errors() {
    match clone_error(EINVAL, "/d") {
        FxcpError::Io { kind, message, .. } => {
            assert_eq!(kind, IoKind::Unsupported);
            assert_eq!(message, "FICLONE (CoW) not supported by filesystem: /d");
        }
        other => panic!("{:?}", other),
    }
    assert!(matches!(clone_error(5, "/d"), FxcpError::System(5)));
}

#[test]
fn sync_markers_come_back() {
    let m = write_sync_marker(1, -2, 3);
    assert_eq!(m.len(), 24);
    assert_eq!(m[..8], [1, 0, 0, 0, 0, 0, 0, 0]);
    assert!(check_sync_marker(&Some(m.clone()), 1, -2, 3));
    assert!(!check_sync_marker(&Some(m.clone()), 1, -2, 4));
    assert!(!check_sync_marker(&Some(m[..23].to_vec()), 1, -2, 3));
    assert!(!check_sync_marker(&None, 1, -2, 3));
}

#[test]
fn directories_are_compared() {
    let d = DirMeta { uid: 1, gid: 2, mode: 3, mtime: 4 };
    assert!(is_dir_metadata_synced(Some(d), Some(d)));
    assert!(!is_dir_metadata_synced(Some(d), Some(DirMeta { mtime: 5, ..d })));
    assert!(!is_dir_metadata_synced(Some(d), None));
    assert_eq!(get_target_epoch(&Some(vec![5, 1, 0, 0, 0, 0, 0, 0])), 261);
    assert_eq!(get_target_epoch(&Some(vec![5])), 0);
    assert_eq!(get_target_epoch(&None), 0);
}

#[test]
fn directory_hashes_are_guarded() {
    let (hash, guard) = write_dir_integrity_hash(77, -9);
    let (hash, guard) = (Some(hash), Some(guard));
    assert_eq!(get_valid_dir_hash(&hash, &guard, Some(-9)), 77);
    assert_eq!(get_valid_dir_hash(&hash, &guard, Some(-8)), 0);
    assert_eq!(get_valid_dir_hash(&hash, &guard, None), 0);
    assert_eq!(check_and_lock_dir_integrity(Ok(()), &hash, &guard, Some(-9)).unwrap(), 77);
    let refused = check_and_lock_dir_integrity(Err(FxcpError::System(11)), &hash, &guard, Some(-9));
    assert!(matches!(refused, Err(FxcpError::System(11))));
    let id = Some(DirIdentity { ino: 1, mode: 2, uid: 3, gid: 4 });
    let name = Some("d".to_string());
    let entry = |len| vec![DirEntryMeta { name: "f".to_string(), len, mtime: 1, mode: 2 }];
    let a = calc_dir_integrity_hash_target(true, &name, id, &entry(5));
    assert_eq!(a, calc_dir_integrity_hash_target(true, &name, id, &entry(5)));
    assert_ne!(a, calc_dir_integrity_hash_target(true, &name, id, &entry(6)));
    assert_eq!(calc_dir_integrity_hash_target(false, &name, id, &entry(5)), 0);
}

#[test]
fn versions_are_named() {
    let f = FileFacts { is_file: true, size: 10, mtime: 5, inode: 42 };
    assert_eq!(
        create_version_snapshot(Some(f), 7, "/t", 0, 1700),
        Some("/t/.foxing_versions/live/42_7_1700".to_string())
    );
    assert_eq!(create_version_snapshot(Some(f), 7, "/t", 43, 1700), None);
    assert_eq!(create_version_snapshot(None, 7, "/t", 0, 1700), None);
    let v = record_snapshot(&f, 7, 1700, "/p".to_string(), Some((vec![1, 2], vec![])));
    assert_eq!((v.inode, v.epoch_seq, v.size, v.path.as_str()), (42, 7, 10, "/p"));
    assert!(v.content_hash.is_some());
    let w = record_snapshot(&f, 7, 1700, "/p".to_string(), Some((vec![1, 3], vec![])));
    assert_ne!(v.content_hash, w.content_hash);
    assert_eq!(record_snapshot(&f, 7, 1700, "/p".to_string(), None).content_hash, None);
    let same = record_snapshot(&f, 7, 1700, "/p".to_string(), Some((vec![1, 2], vec![9])));
    assert_eq!(v.content_hash, same.content_hash);
    assert_eq!(hashed_tail(131_072, &[9]), &[0u8; 0]);
    assert_eq!(hashed_tail(131_073, &[9]), &[9]);
    let u = version_of(&f, 7, 1700, "/p".to_string(), Some(5));
    assert_eq!((u.timestamp, u.mtime, u.content_hash), (1700, 5, Some(5)));
    assert!(hashes_tail(200_000));
    assert!(!hashes_tail(100));
    let stored = "/t/.foxing_versions/live/42_7_1700";
    assert_eq!(
        revert_snapshot(stored, "/t/f").unwrap(),
        Reversion::CopyOver { from: stored.to_string(), to: "/t/f".to_string() }
    );
    assert_eq!(revert_snapshot("/t/f", "/t//f/").unwrap(), Reversion::Stay);
    assert!(commit_epoch("a", 1, 2).is_ok());
}

#[test]
fn reverting_copies_the_version_over() {
    let mut files = std::collections::BTreeMap::new();
    files.insert("/v/1".to_string(), b"old".to_vec());
    files.insert("/t/f".to_string(), b"new".to_vec());
    files.insert("/t/g".to_string(), b"other".to_vec());
    if let Reversion::CopyOver { from, to } = revert_snapshot("/v/1", "/t/f").unwrap() {
        let contents = files[&from].clone();
        files.insert(to, contents);
    }
    assert_eq!(files["/t/f"], b"old");
    assert_eq!(files["/v/1"], b"old");
    assert_eq!(files["/t/g"], b"other");
}

#[test]
fn paths_stay_within() {
    assert!(path_within_root("/a/b", "/a"));
    assert!(!path_within_root("/ab", "/a"));
    assert_eq!(canonicalize_safe("x", "/a", "/a/x".to_string(), "/a").unwrap(), "/a/x");
    match canonicalize_safe("../x", "/a", "/x".to_string(), "/a") {
        Err(FxcpError::Security(m)) => {
            assert_eq!(m, "path \"../x\" escapes root \"/a\" (resolved to \"/x\")")
        }
        other => panic!("{:?}", other),
    }
    assert!(matches!(open_beneath(ENOSYS, "x", "/a"), BeneathFailure::Fallback));
    assert!(matches!(open_beneath(13, "x", "/a"), BeneathFailure::Other(13)));
    match open_beneath(EXDEV, "x", "/a") {
        BeneathFailure::Escapes(FxcpError::Security(m)) => {
            assert_eq!(m, "path \"x\" escapes root \"/a\" (RESOLVE_BENEATH rejected)")
        }
        other => panic!("{:?}", other),
    }
    let m = open_mode(0o1101);
    assert!(m.read && m.write && m.create && m.truncate);
    assert!(!open_mode(0).write);
    assert!(set_file_attr(EINVAL));
    assert!(!set_file_attr(5));
}

fn settings() -> HashSettings {
    let mut s = HashSettings::default();
    set_hashing_enabled(&mut s, true);
    set_lite_threshold_kb(&mut s, 64);
    s
}

#[test]
fn hashing_can_be_switched() {
    let mut s = settings();
    assert!(is_hashing_enabled(&s));
    assert_eq!(get_lite_threshold_bytes(&s), 65536);
    assert_eq!(hash_file_full(&s, b"abc"), Some(*blake3::hash(b"abc").as_bytes()));
    set_hashing_enabled(&mut s, false);
    assert_eq!(hash_file_full(&s, b"abc"), None);
    assert_eq!(hash_file_lite(&s, 3, b"abc", b""), None);
    assert!(verify_blake3(b"a", b"a"));
    assert!(!verify_blake3(b"a", b"b"));
    assert!(!needs_tail(10));
}

#[test]
fn lite_hashes_depend_on_all_they_see() {
    let s = settings();
    let a = hash_file_lite(&s, 1_000_000, b"head", b"tail").unwrap();
    assert_ne!(a, hash_file_lite(&s, 1_000_001, b"head", b"tail").unwrap());
    assert_ne!(a, hash_file_lite(&s, 1_000_000, b"heaD", b"tail").unwrap());
    assert_ne!(a, hash_file_lite(&s, 1_000_000, b"head", b"taiL").unwrap());
}

#[test]
fn samples_are_compared() {
    let s = settings();
    assert!(verify_incremental(&s, 10, Sampled::Hash([1; 32]), Sampled::Hash([2; 32])).unwrap());
    assert!(verify_incremental(&s, 100_000, Sampled::Missing, Sampled::Missing).unwrap());
    assert!(!verify_incremental(&s, 100_000, Sampled::Hash([1; 32]), Sampled::Missing).unwrap());
    assert!(verify_incremental(&s, 100_000, Sampled::Hash([1; 32]), Sampled::Hash([1; 32])).unwrap());
    assert!(!verify_incremental(&s, 100_000, Sampled::Hash([1; 32]), Sampled::Hash([2; 32])).unwrap());
    assert!(verify_incremental(
        &s,
        100_000,
        Sampled::Failed(FxcpError::System(5)),
        Sampled::Hash([2; 32])
    )
    .is_err());
}

#[test]
fn directory_hashes_ignore_order() {
    let mut a = vec![("b".to_string(), [2; 32]), ("a".to_string(), [1; 32])];
    let mut b = vec![("a".to_string(), [1; 32]), ("b".to_string(), [2; 32])];
    let h = compute_dir_hash(&mut a);
    assert_eq!(h, compute_dir_hash(&mut b));
    assert_eq!(a[0].0, "a");
    let mut plain = Vec::new();
    plain.extend_from_slice(b"a:");
    plain.extend_from_slice(&[1; 32]);
    plain.extend_from_slice(b"b:");
    plain.extend_from_slice(&[2; 32]);
    assert_eq!(h, *blake3::hash(&plain).as_bytes());
}

#[test]
fn trees_find_changes() {
    let old: Vec<u8> = (0..10_000u32).map(|i| i as u8).collect();
    let mut new = old.clone();
    new[5000] ^= 1;
    let a = MerkleTree::from_file(&old, 1024);
    let b = MerkleTree::from_file(&new, 1024);
    assert_eq!(a.leaves.len(), 10);
    assert_ne!(a.root, b.root);
    let ranges = MerkleTree::diff(&b, &a);
    assert_eq!(ranges.len(), 1);
    assert_eq!((ranges[0].offset, ranges[0].length), (4096, 1024));
    assert!(MerkleTree::diff(&a, &a).is_empty());
    let delta: Vec<DirtyRange> = MerkleTree::delta(&b, &a);
    assert_eq!(delta.len(), 1);
    let sig = a.to_signature();
    let back = MerkleTree::from_signature(&sig).unwrap();
    assert_eq!(back.root, a.root);
    assert!(verify_with_merkle(&old, &sig));
    assert!(!verify_with_merkle(&new, &sig));
    assert!(sig.fits_in_xattr());
    assert!(sig.serialized_size() > 10 * 32);
    let mut builder = MerkleBuilder::new(1024);
    for chunk in old.chunks(1024) {
        builder.add_chunk(chunk);
    }
    assert_eq!(builder.finish(10_000).root, a.root);
}

#[test]
fn signatures_are_compared() {
    let s = settings();
    let data = vec![1u8; 300_000];
    let mut other = data.clone();
    other[150_000] = 2;
    let a = SyncSignature::compute_from_buffer(&s, &data, 5, 6);
    let b = SyncSignature::compute_from_buffer(&s, &data, 7, 8);
    let c = SyncSignature::compute_from_buffer(&s, &other, 5, 6);
    assert!(a.matches(&b));
    assert!(!a.matches(&c));
    assert_eq!(a.size, 300_000);
    assert_eq!(a.merkle_root, Some(blake3::hash(&data).to_hex().to_string()));
    let d = SyncSignature::compute(&s, 3, 5, 6, b"abc", b"", b"abc");
    assert_eq!((d.size, d.mtime_sec, d.mtime_nsec), (3, 5, 6));
}

#[test]
fn signatures_as_bytes() {
    let sig = SyncSignature {
        size: 1,
        mtime_sec: 2,
        mtime_nsec: 3,
        hash: None,
        merkle_root: None,
        chunk_size: None,
        leaf_count: None,
        version: 4,
    };
    let bytes = sig.serialize();
    assert_eq!(bytes.len(), 8 + 8 + 8 + 1 + 1 + 1 + 1 + 1);
    assert_eq!(bytes[0], 1);
    assert_eq!(bytes[28], 4);
    assert!(SyncSignature::deserialize(&[]).is_none());
    let mut map = MetaMap::new();
    set_sync_signature(&mut map, &sig);
    assert!(get_sync_signature(&None).is_none());
    assert_eq!(map.entries.len(), 1);
}

#[test]
fn metadata_comes_back() {
    assert_eq!(get_sidecar_path("/a/f"), Some("/a/.f.foxing_meta".to_string()));
    assert_eq!(get_sidecar_path("/"), None);
    assert_eq!(get_dir_sidecar_path("/a", true), Some("/a/.foxing_dir_meta".to_string()));
    assert_eq!(get_dir_sidecar_path("/a/f", false), Some("/a/.f.foxing_meta".to_string()));
    for key in ["k", "user.foxing.k", "trusted.foxing.k"] {
        assert_eq!(
            resolve_key_variants(key),
            ("trusted.foxing.k".to_string(), "user.foxing.k".to_string())
        );
    }
    let mut map = MetaMap::new();
    set_metadata(&mut map, "k", &[1, 2]);
    set_metadata(&mut map, "user.foxing.k", &[3]);
    let map = Some(map);
    assert_eq!(get_metadata(&map, "k", None, None), Some(vec![3]));
    assert_eq!(get_metadata(&None, "k", Some(vec![8]), Some(vec![9])), Some(vec![8]));
    assert_eq!(get_metadata(&None, "k", None, Some(vec![9])), Some(vec![9]));
    let mut map = map.unwrap();
    assert_eq!(remove_metadata(&mut map, "k"), AfterRemove::Delete);
    assert_eq!(remove_metadata(&mut map, "k"), AfterRemove::Leave);
    assert!(keeps_metadata(true, false));
    assert!(!keeps_metadata(true, true));
    assert!(removal_error_is_harmless(true, None));
}

#[test]
fn dirty_flags() {
    let mut map = MetaMap::new();
    set_metadata(&mut map, "other", &[5]);
    assert_eq!(set_dirty_flag(&mut map, true), AfterRemove::Rewrite);
    let mut map = Some(map);
    assert!(is_dirty(&get_metadata(&map, "dirty", None, None)));
    assert_eq!(get_metadata(&map, "other", None, None), Some(vec![5]));
    assert_eq!(set_dirty_flag(map.as_mut().unwrap(), false), AfterRemove::Rewrite);
    assert_eq!(get_metadata(&map, "dirty", None, None), None);
    assert_eq!(get_metadata(&map, "other", None, None), Some(vec![5]));
    assert_eq!(set_dirty_flag(map.as_mut().unwrap(), false), AfterRemove::Leave);
    assert!(!is_dirty(&None));
    assert!(!is_dirty(&Some(vec![])));
    assert_eq!(get_dir_hash(&[7; 32]), Some([7; 32]));
    assert_eq!(get_dir_hash(&[7; 31]), None);
}

#[test]
fn merkle_signatures_are_bounded() {
    let sig = |chunk_size, leaves: usize| MerkleSignature {
        root: [1; 32],
        chunk_size,
        file_size: 100,
        leaf_hashes: vec![[2; 32]; leaves],
    };
    let bytes = set_merkle_signature(&sig(50, 2)).unwrap();
    assert_eq!(bytes.len(), 32 + 8 + 8 + 8 + 64);
    assert!(set_merkle_signature(&sig(50, 3000)).is_none());
    assert!(accept_merkle(sig(0, 0)).is_none());
    assert!(accept_merkle(sig(50, 4)).is_some());
    assert!(accept_merkle(sig(50, 5)).is_none());
    assert!(get_merkle_signature(&None).is_none());
}
