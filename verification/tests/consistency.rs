use fxcp_core::consistency::journal::{
    atomic_commit, atomic_rename, next_step, CommitStep, RenameStep, StepResult, RENAME_EXCHANGE,
    RENAME_NOREPLACE,
};
use fxcp_core::consistency::sequencer::{GlobalSequencer, SequenceBarrier};
use fxcp_core::consistency::serialization::{OpKind, SerializationEngine};
use fxcp_core::consistency::wal::{Attempt, InMemoryWal, InodeUse, WalOpKind};
use fxcp_core::errno::{EEXIST, EINVAL, ENOSYS};
use fxcp_core::error::IoKind;

#[test]
fn tickets_come_in_order() {
    let mut s = GlobalSequencer::new(0);
    assert_eq!(s.next(), 1);
    assert_eq!(s.next(), 2);
    assert_eq!(s.current(), 2);
}

#[test]
fn barriers_wait_for_gaps() {
    let mut b = SequenceBarrier::new(0);
    b.complete(2);
    b.complete(3);
    assert!(!b.wait_for(1));
    assert_eq!(b.current(), 0);
    b.complete(1);
    assert_eq!(b.current(), 3);
    assert!(b.wait_for(3));
    assert!(!b.wait_for(4));
    b.complete(2);
    assert_eq!(b.current(), 3);
}

#[test]
fn one_operation_at_a_time() {
    let mut e = SerializationEngine::new();
    let a = e.acquire_barrier(7, OpKind::Write);
    let b = e.acquire_barrier(7, OpKind::Rename);
    assert!(e.is_active(7));
    assert!(!e.is_active(8));
    assert!(e.may_start(7, a));
    assert!(!e.may_start(7, b));
    assert!(e.complete_op(7, a));
    assert!(e.may_start(7, b));
    assert!(!e.complete_op(9, 0));
}

#[test]
fn paths_are_held_once() {
    let mut e = SerializationEngine::new();
    assert!(e.acquire_path_barrier("/a/b"));
    assert!(!e.acquire_path_barrier("/a//b"));
    assert!(e.release_path("/a/b"));
    assert!(!e.release_path("/a/b"));
    assert!(e.acquire_path_barrier("/a/b"));
    assert!(e.check_sequence(1, 2));
}

#[test]
fn writers_share_and_barriers_exclude() {
    let mut u = InodeUse { active_writers: 0, pending_barriers: 0, exclusive_locked: false };
    assert_eq!(u.ask(WalOpKind::Write, false), Attempt::Granted);
    assert_eq!(u.ask(WalOpKind::Write, false), Attempt::Granted);
    match u.ask(WalOpKind::Rename, false) {
        Attempt::Wait { announced } => assert!(announced),
        other => panic!("{:?}", other),
    }
    u.release(WalOpKind::Write);
    u.release(WalOpKind::Write);
    assert_eq!(u.ask(WalOpKind::Rename, true), Attempt::Granted);
    assert!(u.exclusive_locked);
    u.release(WalOpKind::Rename);
    assert!(!u.exclusive_locked);
    assert_eq!(u.pending_barriers, 0);
}

#[test]
fn the_log_grants_and_takes_back() {
    let mut w = InMemoryWal::new();
    let first = w.get_next_seq();
    assert_eq!(w.get_next_seq(), first + 1);
    let (a, entry) = w.acquire_barrier(3, WalOpKind::Write, false, 99);
    assert_eq!(a, Attempt::Granted);
    let mut entry = entry.unwrap();
    assert_eq!((entry.inode, entry.timestamp, entry.completed), (3, 99, false));
    let (a, none) = w.acquire_barrier(3, WalOpKind::Truncate, false, 99);
    assert!(matches!(a, Attempt::Wait { .. }));
    assert!(none.is_none());
    w.release(&mut entry);
    assert!(entry.completed);
}

#[test]
fn renames_fall_back() {
    assert_eq!(atomic_rename(Some(RENAME_EXCHANGE)), RenameStep::Renameat2);
    assert_eq!(atomic_rename(None), RenameStep::Plain);
    assert_eq!(next_step(RenameStep::Renameat2, RENAME_EXCHANGE, StepResult::Fine), RenameStep::Done);
    let refused = StepResult::Wrong { errno: ENOSYS, kind: IoKind::Unsupported };
    let next = next_step(RenameStep::Renameat2, RENAME_EXCHANGE, refused);
    assert_eq!(next, RenameStep::Reflink);
    let invalid = StepResult::Wrong { errno: EINVAL, kind: IoKind::InvalidInput };
    assert_eq!(next_step(RenameStep::Renameat2, RENAME_NOREPLACE, invalid), RenameStep::Plain);
    let exists = StepResult::Wrong { errno: EEXIST, kind: IoKind::AlreadyExists };
    assert_eq!(next_step(RenameStep::Renameat2, RENAME_NOREPLACE, exists), RenameStep::Failed);
    assert_eq!(next_step(RenameStep::Reflink, 2, invalid), RenameStep::MoveAside);
    let missing = StepResult::Wrong { errno: 2, kind: IoKind::NotFound };
    assert_eq!(next_step(RenameStep::MoveAside, 2, missing), RenameStep::Plain);
    assert_eq!(next_step(RenameStep::Replace { copied: false }, 2, invalid), RenameStep::Restore);
    assert_eq!(next_step(RenameStep::Replace { copied: true }, 2, invalid), RenameStep::RemoveAside);
    assert_eq!(next_step(RenameStep::Replace { copied: true }, 2, StepResult::Fine), RenameStep::MoveBack);
    assert_eq!(next_step(RenameStep::Plain, 0, StepResult::Fine), RenameStep::Done);
    assert_eq!(next_step(RenameStep::Plain, 0, invalid), RenameStep::Failed);
}

#[test]
fn commits_remove_or_rename() {
    assert_eq!(atomic_commit(Some(None)), CommitStep::RemoveTemp);
    assert_eq!(atomic_commit(None), CommitStep::Rename { surprised: false });
    assert_eq!(atomic_commit(Some(Some(5))), CommitStep::Rename { surprised: true });
    assert_eq!(atomic_commit(Some(Some(EINVAL))), CommitStep::Rename { surprised: false });
}
