use fxcp_core::buffer::{AlignedBuffer, BufferBudget, BufferPool};
use fxcp_core::errno::{ECANCELED, EINVAL, ENOTTY, ENXIO, EOPNOTSUPP, EPERM};
use fxcp_core::error::{FxcpError, IoKind};
use fxcp_core::operations::copy::{
    add_delta, after_publish_failure, cloned, covers_whole_file, determine_copy_strategy,
    execute_copy_file, has_nocow_flag, is_network_fs, publish_plan,
    reflink_first, reopen_with_atime, settle_commit, use_direct_io, CopyStrategy, FileStep,
    Publish, RangeCopy, StepOutcome, COPY_RANGE_MAX, FS_NOCOW_FL,
};
use fxcp_core::operations::segment::{
    check_atomic_invariants, is_block_zero, IdleStep, NextOp, SegmentConfig, SegmentCopy,
    FALLOC_OP, READ_OP, RWF_ATOMIC, RWF_UNCACHED, WRITE_OP,
};
use fxcp_core::operations::sparse::{FileSegment, SeekStep, SparseMap};
use fxcp_core::operations::transfer::{
    fsync_completion, fsync_idle, FsyncLatencyTracker, FsyncStep, PushAttempts, Transfer,
    TransferStep,
};
use fxcp_core::operations::CopyStats;

fn budget() -> BufferBudget {
    BufferBudget { used: 0, limit: 1 << 30 }
}

#[test]
fn buffers_are_paid_for() {
    let mut b = budget();
    let mut buf = AlignedBuffer::try_new(&mut b, 100, 512).unwrap();
    assert_eq!((buf.capacity(), buf.alignment(), buf.get_len()), (4096, 4096, 0));
    assert_eq!(b.used, 4096);
    buf.set_full_len();
    assert_eq!(buf.get_len(), 4096);
    buf.clear();
    assert_eq!(buf.get_len(), 0);
    buf.set_len(7);
    assert_eq!(buf.get_len(), 7);
    buf.free(&mut b);
    assert_eq!(b.used, 0);
}

#[test]
fn buffers_are_refused() {
    let mut b = BufferBudget { used: 0, limit: 4095 };
    match AlignedBuffer::try_new(&mut b, 4096, 4096) {
        Err(FxcpError::MemoryExhausted(m)) => {
            assert_eq!(m, "Global memory limit exceeded. Refusing allocation of 4096 bytes.")
        }
        other => panic!("{:?}", other),
    }
    let mut b = budget();
    assert!(matches!(
        AlignedBuffer::try_new_numa(&mut b, 8192, 5000, 0),
        Err(FxcpError::System(EINVAL))
    ));
    assert_eq!(b.used, 0);
}

#[test]
fn pools_hand_out_each_buffer_once() {
    for local in [true, false] {
        let mut b = budget();
        let mut pool = if local {
            BufferPool::new_local(&mut b, 3, 4096, 4096).unwrap()
        } else {
            BufferPool::new(&mut b, 3, 4096, 4096).unwrap()
        };
        let n = pool.capacity();
        assert_eq!(pool.free_count(), n);
        let mut got: Vec<u16> = Vec::new();
        while let Some(i) = pool.acquire() {
            got.push(i);
        }
        assert_eq!(got.len(), n);
        got.sort();
        got.dedup();
        assert_eq!(got.len(), n);
        pool.set_len(got[0], 10);
        assert_eq!(pool.get_len(got[0]), 10);
        pool.release(got[0]);
        assert_eq!(pool.get_len(got[0]), 0);
        assert_eq!(pool.free_count(), 1);
        assert_eq!(pool.acquire(), Some(got[0]));
    }
}

fn config(vdo_opt: bool, use_atomic: bool) -> SegmentConfig {
    SegmentConfig {
        vdo_opt,
        use_atomic,
        read_uncached: true,
        write_uncached: false,
        atomic_min: 4096,
        atomic_max: 16384,
        atomic_writes: use_atomic,
        buffer_limit: None,
    }
}

fn pool_of(chunk: usize) -> BufferPool {
    BufferPool::new_local(&mut budget(), 4, chunk, 4096).unwrap()
}

#[test]
fn linked_segment_runs_through() {
    let mut pool = pool_of(4096);
    let mut s = SegmentCopy::new(config(false, false), &pool, 1000, 4100);
    let mut tags = Vec::new();
    while s.may_submit() {
        let i = pool.acquire().unwrap();
        let p = s.plan_read(&mut pool, i, 0).unwrap();
        assert_eq!(p.read_flags, RWF_UNCACHED);
        tags.push((p.read_tag, p.linked.unwrap().1, p.len));
        s.read_queued(p.len);
    }
    assert_eq!(tags.iter().map(|t| t.2).collect::<Vec<u32>>(), vec![4096, 4]);
    assert_eq!(s.inflight, 4);
    assert!(s.submitted(None));
    for (read, write, len) in tags {
        let data = vec![1u8; len as usize];
        assert_eq!(s.on_completion(&mut pool, read, len as i32, &data, ""), NextOp::Nothing);
        assert_eq!(s.on_completion(&mut pool, write, len as i32, &[], ""), NextOp::Nothing);
    }
    assert!(!s.is_active());
    assert_eq!(s.when_idle(&pool, false), IdleStep::Leave);
    assert_eq!(pool.free_count(), pool.capacity());
    let stats = s.finish().unwrap();
    assert_eq!((stats.bytes_processed, stats.ops_count), (4100, 2));
}

#[test]
fn zero_blocks_become_holes() {
    let mut pool = pool_of(16384);
    let mut s = SegmentCopy::new(config(true, false), &pool, 0, 16384);
    let i = pool.acquire().unwrap();
    let p = s.plan_read(&mut pool, i, 0).unwrap();
    assert!(p.linked.is_none());
    s.read_queued(p.len);
    let next = s.on_completion(&mut pool, READ_OP | i as u64, 16384, &vec![0u8; 16384], "");
    assert_eq!(
        next,
        NextOp::Punch { index: i, offset: 0, size: 16384, tag: FALLOC_OP | i as u64 }
    );
    s.next_queued(&mut pool, next, true);
    s.on_completion(&mut pool, FALLOC_OP | i as u64, 0, &[], "");
    let stats = s.finish().unwrap();
    assert_eq!((stats.bytes_processed, stats.bytes_zeros), (16384, 16384));
}

#[test]
fn refused_atomic_writes_are_retried() {
    let mut pool = pool_of(4096);
    let mut s = SegmentCopy::new(config(false, true), &pool, 0, 4096);
    let i = pool.acquire().unwrap();
    let p = s.plan_read(&mut pool, i, 4096).unwrap();
    s.read_queued(p.len);
    let data = vec![1u8; 4096];
    let next = s.on_completion(&mut pool, READ_OP | i as u64, 4096, &data, "");
    assert_eq!(
        next,
        NextOp::Write { index: i, offset: 0, len: 4096, flags: RWF_ATOMIC, tag: WRITE_OP | i as u64 }
    );
    s.next_queued(&mut pool, next, true);
    let next = s.on_completion(&mut pool, WRITE_OP | i as u64, -EOPNOTSUPP, &data, "");
    assert!(matches!(next, NextOp::Retry { flags: 0, len: 4096, offset: 0, .. }));
    assert!(!s.atomic_writes);
    assert_eq!(s.fallbacks, 1);
}

#[test]
fn failed_reads_fail_the_segment() {
    let mut pool = pool_of(4096);
    let mut s = SegmentCopy::new(config(false, false), &pool, 0, 4096);
    let i = pool.acquire().unwrap();
    let p = s.plan_read(&mut pool, i, 0).unwrap();
    s.read_queued(p.len);
    s.on_completion(&mut pool, READ_OP | i as u64, -5, &[], "Input/output error (os error 5)");
    s.on_completion(&mut pool, WRITE_OP | i as u64, -ECANCELED, &[], "");
    assert_eq!(pool.free_count(), pool.capacity());
    assert!(!s.may_submit());
    match s.finish() {
        Err(FxcpError::Io { errno, message, .. }) => {
            assert_eq!(errno, Some(5));
            assert_eq!(message, "Input/output error (os error 5)");
        }
        other => panic!("{:?}", other),
    }
}

#[test]
fn failed_segment_with_data_left_reads_no_more() {
    let mut pool = pool_of(4096);
    let mut s = SegmentCopy::new(config(false, false), &pool, 0, 8192);
    let i = pool.acquire().unwrap();
    let p = s.plan_read(&mut pool, i, 0).unwrap();
    s.read_queued(p.len);
    assert_eq!(s.length, 4096);
    s.on_completion(&mut pool, READ_OP | i as u64, -5, &[], "Input/output error (os error 5)");
    assert_eq!(s.when_idle(&pool, false), IdleStep::Fill);
    s.on_completion(&mut pool, WRITE_OP | i as u64, -ECANCELED, &[], "");
    assert_eq!(s.inflight, 0);
    assert!(s.is_active());
    assert!(!s.may_submit());
    assert_eq!(s.when_idle(&pool, true), IdleStep::Leave);
}

#[test]
fn unknown_buffers_and_bad_submissions() {
    let mut pool = pool_of(4096);
    let mut s = SegmentCopy::new(config(false, false), &pool, 0, 4096);
    match s.plan_read(&mut pool, 999, 0) {
        Err(FxcpError::MemoryExhausted(m)) => assert_eq!(m, "BufferPool index corrupted"),
        other => panic!("{:?}", other),
    }
    let i = pool.acquire().unwrap();
    assert!(s.read_refused(&mut pool, i, true));
    assert!(!s.submitted(Some("no".to_string())));
    assert!(s.error.is_none());
    let i = pool.acquire().unwrap();
    let p = s.plan_read(&mut pool, i, 0).unwrap();
    s.read_queued(p.len);
    assert!(s.submitted(Some("no".to_string())));
    assert!(s.finish().is_err());
}

fn io(e: FxcpError) -> (IoKind, String) {
    match e {
        FxcpError::Io { kind, message, .. } => (kind, message),
        other => panic!("{:?}", other),
    }
}

#[test]
fn atomic_writes_have_conditions() {
    assert!(check_atomic_invariants(4096, 16384, 8192, 8192, 8192).is_ok());
    let fault = |min, max, offset, len, at| {
        io(check_atomic_invariants(min, max, offset, len, at).unwrap_err())
    };
    assert_eq!(
        fault(0, 0, 0, 4096, 0),
        (IoKind::Unsupported, "Atomic writes not supported by hardware".to_string())
    );
    assert_eq!(fault(4096, 16384, 0, 5000, 0).1, "Atomic write length 5000 is not power of 2");
    assert_eq!(fault(4096, 16384, 0, 0, 0).1, "Atomic write length 0 is not power of 2");
    assert_eq!(
        fault(4096, 16384, 0, 2048, 0).1,
        "Atomic write length 2048 out of bounds (4096-16384)"
    );
    assert_eq!(
        fault(4096, 16384, 100, 4096, 0).1,
        "Atomic write offset 100 not aligned to length 4096"
    );
    assert_eq!(fault(4096, 16384, 0, 4096, 8).1, "Buffer memory not aligned for atomic write");
}

#[test]
fn blocks_of_zeros() {
    assert!(is_block_zero(&[]));
    assert!(is_block_zero(&[0; 5000]));
    let mut b = [0u8; 5000];
    b[4999] = 1;
    assert!(!is_block_zero(&b));
}

#[test]
fn sparse_files_are_mapped() {
    let (mut m, step) = SparseMap::new(0, 100);
    assert_eq!(step, SeekStep::Data(0));
    assert_eq!(m.on_data(Ok(10), "").unwrap(), SeekStep::Hole(10));
    assert_eq!(m.on_hole(Some(40)), SeekStep::Data(40));
    assert_eq!(m.on_data(Err(ENXIO), "").unwrap(), SeekStep::Done);
    assert_eq!(
        m.segments,
        vec![
            FileSegment::Hole { offset: 0, len: 10 },
            FileSegment::Data { offset: 10, len: 30 },
            FileSegment::Hole { offset: 40, len: 60 }
        ]
    );
    let (mut m, _) = SparseMap::new(5, 10);
    let (kind, text) = io(m.on_data(Err(5), "Input/output error (os error 5)").unwrap_err());
    assert_eq!((kind, text.as_str()), (IoKind::Other, "Input/output error (os error 5)"));
    assert_eq!(m.on_data(Ok(5), "").unwrap(), SeekStep::Hole(5));
    assert_eq!(m.on_hole(None), SeekStep::Done);
    assert_eq!(m.segments, vec![FileSegment::Data { offset: 5, len: 10 }]);
    let (mut m, _) = SparseMap::new(5, 10);
    m.on_data(Ok(5), "").unwrap();
    assert_eq!(m.on_hole(Some(5)), SeekStep::Stuck);
    assert_eq!(SparseMap::new(5, 0).1, SeekStep::Done);
}

#[test]
fn transfers_go_segment_by_segment() {
    let mapped = vec![
        FileSegment::Hole { offset: 0, len: 16384 },
        FileSegment::Data { offset: 16384, len: 10 },
        FileSegment::Hole { offset: 16394, len: 5 },
    ];
    let mut t = Transfer::new(true, 0, 16399, mapped);
    assert_eq!(t.next_step(), TransferStep::Punch { offset: 0, len: 16384 });
    assert_eq!(t.next_step(), TransferStep::Copy { offset: 16384, len: 10 });
    t.add_segment(&CopyStats { bytes_processed: 10, bytes_zeros: 0, io_micros: 7, ops_count: 1 });
    assert_eq!(t.next_step(), TransferStep::Leave);
    assert_eq!(t.next_step(), TransferStep::Finish);
    let s = t.finish(55);
    assert_eq!((s.bytes_processed, s.bytes_zeros, s.io_micros, s.ops_count), (10, 16389, 55, 1));
    let mut t = Transfer::new(false, 3, 9, vec![]);
    assert_eq!(t.next_step(), TransferStep::Copy { offset: 3, len: 9 });
}

#[test]
fn pushes_and_flushes() {
    let mut p = PushAttempts::new();
    let tries = (0..20).filter(|_| p.refused()).count();
    assert_eq!(tries, 9);
    assert_eq!(io(PushAttempts::hole_refused()).1, "Submission queue full (fallocate)");
    assert!(matches!(fsync_completion(1, 0, ""), FsyncStep::Again));
    assert!(matches!(fsync_completion(0, 0, ""), FsyncStep::Done));
    assert!(matches!(fsync_completion(0, -5, ""), FsyncStep::Failed(_)));
    assert!(matches!(fsync_idle(6, 5), FsyncStep::TimedOut));
    assert!(matches!(fsync_idle(5, 5), FsyncStep::Wait));
    let mut t = FsyncLatencyTracker::default();
    let before = t.get_timeout();
    t.record_timeout();
    assert!(t.get_timeout() >= before);
    t.record_success(100);
}

#[test]
fn strategies_are_chosen() {
    let reflink = |len, dst, parent, flags| determine_copy_strategy(true, 1, len, dst, parent, flags);
    assert_eq!(reflink(4096, Some(1), None, None), CopyStrategy::Reflink);
    assert_eq!(reflink(4096, None, Some(1), Some(0)), CopyStrategy::Reflink);
    assert_eq!(reflink(4095, Some(1), None, None), CopyStrategy::StandardCopy);
    assert_eq!(reflink(4096, Some(2), Some(1), None), CopyStrategy::StandardCopy);
    assert_eq!(reflink(4096, Some(1), None, Some(FS_NOCOW_FL)), CopyStrategy::StandardCopy);
    assert_eq!(
        determine_copy_strategy(false, 1, 4096, Some(1), None, None),
        CopyStrategy::StandardCopy
    );
    assert!(has_nocow_flag(0x00FF_FFFF));
    assert!(covers_whole_file(0, 5, 5));
    assert!(!covers_whole_file(1, 4, 5));
    assert!(use_direct_io(true, 4096, 8192));
    assert!(!use_direct_io(true, 1, 8192));
    assert!(reopen_with_atime(Some(EPERM)));
    assert!(!reopen_with_atime(None));
    assert!(reflink_first(false, false, CopyStrategy::Reflink));
    assert!(!reflink_first(false, true, CopyStrategy::Reflink));
    assert!(is_network_fs(0x6969) && is_network_fs(0x517B) && !is_network_fs(1));
}

#[test]
fn ranges_are_copied_in_calls() {
    let mut c = RangeCopy::new(COPY_RANGE_MAX + 5);
    assert_eq!(c.next_chunk(), Some(COPY_RANGE_MAX));
    assert!(c.remove_after_failure());
    assert!(c.on_copied(COPY_RANGE_MAX));
    assert_eq!(c.next_chunk(), Some(5));
    assert!(!c.on_copied(0));
    assert_eq!(io(c.finish(1).unwrap_err()).1, "Reflink partial copy or EOF");
    assert!(c.on_copied(5));
    assert_eq!(c.next_chunk(), None);
    let s = c.finish(9).unwrap();
    assert_eq!((s.bytes_processed, s.ops_count, s.io_micros), (COPY_RANGE_MAX + 5, 2, 9));
    assert_eq!(cloned(7, 3).ops_count, 1);
    let mut total = cloned(7, 3);
    add_delta(&mut total, &cloned(5, 1));
    assert_eq!((total.bytes_processed, total.ops_count, total.io_micros), (12, 2, 3));
}

#[test]
fn commits_settle_copies() {
    let failed = || Err::<(), FxcpError>(FxcpError::System(5));
    assert!(settle_commit(Ok(cloned(1, 1)), Ok(())).is_ok());
    assert!(matches!(settle_commit(Ok(cloned(1, 1)), failed()), Err(FxcpError::System(5))));
    assert!(matches!(
        settle_commit(Err(FxcpError::System(6)), failed()),
        Err(FxcpError::System(6))
    ));
}

#[test]
fn copies_are_published() {
    assert_eq!(publish_plan(true, true, true), Publish::ExchangeNames);
    assert_eq!(publish_plan(true, true, false), Publish::ExchangeContents);
    assert_eq!(publish_plan(true, false, false), Publish::Rename);
    assert_eq!(
        after_publish_failure(Publish::ExchangeContents, Some(ENOTTY)),
        (Some(Publish::Rename), true)
    );
    assert_eq!(
        after_publish_failure(Publish::ExchangeNames, Some(ENOTTY)),
        (Some(Publish::Rename), false)
    );
    assert_eq!(after_publish_failure(Publish::Rename, None), (None, false));

    let mut step = FileStep::Copy;
    let mut seen = vec![step];
    while step != FileStep::Done {
        step = execute_copy_file(step, StepOutcome::Fine, false, true);
        seen.push(step);
    }
    assert_eq!(
        seen,
        vec![
            FileStep::Copy,
            FileStep::Sync,
            FileStep::Metadata,
            FileStep::Publish,
            FileStep::Notify,
            FileStep::Done
        ]
    );
    let after = |s, o| execute_copy_file(s, o, true, false);
    assert_eq!(after(FileStep::Copy, StepOutcome::Fine), FileStep::Metadata);
    assert_eq!(after(FileStep::Copy, StepOutcome::Failed), FileStep::RemoveTemp);
    assert_eq!(after(FileStep::Copy, StepOutcome::NotBegun), FileStep::Fail);
    assert_eq!(after(FileStep::RemoveTemp, StepOutcome::Fine), FileStep::Fail);
    assert_eq!(after(FileStep::Metadata, StepOutcome::Failed), FileStep::Publish);
    assert_eq!(after(FileStep::Publish, StepOutcome::Fine), FileStep::Done);
}
