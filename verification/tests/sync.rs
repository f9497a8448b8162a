use fxcp_core::error::CopyErrorKind;
use fxcp_core::sync::passes::{
    checkpoint_name, delete_extra_files, delete_plan, prune_stream_checkpoints, run_cleanup,
    should_verify, stem_of, Compared, DeleteAction, DeletePlan, Moment,
};
use fxcp_core::sync::stream::{checkpoint_due, PieceAction, StdinCopy};
use fxcp_core::sync::walk::{
    AfterTry, CopyPlan, DirAction, EntryAction, EntryKind, FileAction, FileState, Outcome,
    Signing, SourceState, SyncWalk, Tier,
};
use fxcp_core::sync::{
    single_destination, single_stats, source_plan, RunMode, SourcePlan, SyncOptions, SyncStats,
};

fn list(items: &[&str]) -> Vec<String> {
    items.iter().map(|s| s.to_string()).collect()
}

#[test]
fn options_choose_the_job() {
    let mut o = SyncOptions::default();
    o.source = "/a".to_string();
    assert_eq!(o.run(), RunMode::Sync);
    assert!(!o.is_recursive());
    o.archive = true;
    assert!(o.is_recursive());
    o.source = "-".to_string();
    assert_eq!(o.run(), RunMode::Stdin);
    o.cleanup = true;
    assert_eq!(o.run(), RunMode::Cleanup);
}

#[test]
fn sources_are_planned() {
    assert_eq!(source_plan(true, false, false), SourcePlan::SingleFile);
    assert_eq!(source_plan(false, true, true), SourcePlan::Tree);
    assert_eq!(source_plan(true, false, true), SourcePlan::Refused);
    assert_eq!(single_destination("/a/f", "/d", true), Some("/d/f".to_string()));
    assert_eq!(single_destination("/a/f", "/d/g", false), Some("/d/g".to_string()));
    assert_eq!(single_destination("/", "/d", true), None);
    assert_eq!(single_stats(9).totals(), Some((1, 9)));
}

fn walk(dry_run: bool) -> SyncWalk {
    SyncWalk::new(dry_run, true, true, &list(&["*.tmp", "[bad"]))
}

#[test]
fn entries_are_filtered() {
    let mut w = walk(false);
    assert_eq!(w.on_entry("a.tmp", EntryKind::File), EntryAction::Skip);
    assert_eq!(w.on_entry("a", EntryKind::File), EntryAction::LookAtFile);
    assert_eq!(w.on_entry("d", EntryKind::Dir), EntryAction::LookAtDir);
    assert_eq!(w.on_entry("fifo", EntryKind::Other), EntryAction::Skip);
    w.on_walk_error();
    assert_eq!(w.stats.errors, 1);
}

#[test]
fn unchanged_directories_are_pruned() {
    let mut w = walk(false);
    let h = Some([1; 32]);
    assert_eq!(w.on_dir("d", true, &h, &h), DirAction::Prune);
    assert_eq!(w.stats.dirs_pruned, 1);
    assert_eq!(w.on_entry("d/x", EntryKind::File), EntryAction::Skip);
    assert_eq!(w.on_entry("e/x", EntryKind::File), EntryAction::LookAtFile);
    assert_eq!(w.on_dir("", true, &h, &h), DirAction::Leave);
    assert_eq!(w.on_dir("n", false, &h, &None), DirAction::Create);
    w.on_dir_created();
    assert_eq!(w.stats.dirs_created, 1);
    assert!(w.stores_dir_hash("n", true));
    assert!(!w.stores_dir_hash("d", true));
    assert_eq!(walk(true).on_dir("n", false, &None, &None), DirAction::WouldCreate);
}

#[test]
fn files_are_copied_when_they_differ() {
    let f = FileState { len: 5, mtime: 10, mtime_nsec: 1 };
    let mut w = walk(false);
    assert_eq!(w.on_file(SourceState::Is(f), Some(f)), FileAction::Skip);
    assert_eq!(w.on_file(SourceState::Vanished, None), FileAction::Skip);
    assert_eq!(w.stats.files_skipped, 2);
    assert_eq!(w.on_file(SourceState::Failed, None), FileAction::Skip);
    assert_eq!(w.stats.errors, 1);
    assert_eq!(w.on_file(SourceState::Is(f), None), FileAction::Copy);
    let later = FileState { mtime_nsec: 2, ..f };
    assert_eq!(w.on_file(SourceState::Is(f), Some(later)), FileAction::Copy);
    let mut dry = walk(true);
    assert_eq!(dry.on_file(SourceState::Is(f), None), FileAction::WouldCopy);
    assert_eq!(dry.stats.totals(), Some((1, 5)));
}

fn plan(size: u64) -> CopyPlan {
    CopyPlan {
        size,
        same_size: false,
        blocks: size / 512 + 1,
        same_device: true,
        dst_is_nfs: false,
        nfs_session: false,
    }
}

#[test]
fn tiers_are_tried_in_order() {
    assert_eq!(plan(100).first_tier(), Tier::Reflink);
    assert_eq!(plan(100).next_tier(Tier::Reflink), Tier::CopyRange);
    assert_eq!(plan(100).next_tier(Tier::CopyRange), Tier::Small);
    assert_eq!(plan(100).next_tier(Tier::Small), Tier::Ring);
    assert_eq!(plan(0).first_tier(), Tier::Small);
    assert_eq!(plan(1_000_000).next_tier(Tier::CopyRange), Tier::Ring);
    let delta = CopyPlan { same_size: true, ..plan(1_000_000) };
    assert_eq!(delta.first_tier(), Tier::Delta);
    let nfs = CopyPlan { dst_is_nfs: true, nfs_session: true, same_device: false, ..plan(100) };
    assert_eq!(nfs.first_tier(), Tier::NfsBypass);
    let sparse = CopyPlan { blocks: 1, same_device: false, ..plan(1_000_000) };
    assert_eq!(sparse.first_tier(), Tier::Ring);
}

#[test]
fn attempts_are_counted() {
    let mut w = walk(false);
    let p = plan(100);
    assert_eq!(w.on_tried(&p, Tier::Reflink, Outcome::Declined), AfterTry::Try(Tier::CopyRange));
    match w.on_tried(&p, Tier::CopyRange, Outcome::Copied(100)) {
        AfterTry::Done { preserve, sign } => assert_eq!((preserve, sign), (true, Signing::FromFile)),
        other => panic!("{:?}", other),
    }
    assert_eq!((w.stats.files_cfr, w.stats.bytes_cfr), (1, 100));
    w.on_signed();
    assert_eq!(w.stats.sigs_stored, 1);
    let a = w.on_tried(&p, Tier::Ring, Outcome::Failed(CopyErrorKind::Permanent));
    assert_eq!(a, AfterTry::GiveUp);
    assert_eq!(w.stats.errors, 1);
}

#[test]
fn verification_is_counted() {
    let none = list(&[]);
    assert!(should_verify("a", true, true, &none));
    assert!(!should_verify("a", false, true, &none));
    assert!(!should_verify("a", true, false, &none));
    assert!(!should_verify("a.tmp", true, true, &list(&["*.tmp"])));
    let mut s = SyncStats::default();
    s.on_compared(Compared::Same);
    s.on_compared(Compared::Different);
    s.on_compared(Compared::Failed);
    s.on_dir_hashed();
    assert_eq!((s.files_verified, s.verify_failures, s.dirs_hashed), (1, 2, 1));
    assert!(s.has_room(5));
}

#[test]
fn deletions_are_decided() {
    assert_eq!(delete_plan(Some(1)), DeletePlan::Replay);
    assert_eq!(delete_plan(Some(0)), DeletePlan::Walk);
    assert_eq!(delete_plan(None), DeletePlan::Walk);
    let x = list(&["*.keep"]);
    assert_eq!(delete_extra_files("a", false, false, &x), DeleteAction::RemoveFile);
    assert_eq!(delete_extra_files("d", true, false, &x), DeleteAction::RemoveDir);
    assert_eq!(delete_extra_files("a", false, true, &x), DeleteAction::Keep);
    assert_eq!(delete_extra_files("a.keep", false, false, &x), DeleteAction::Keep);
    assert_eq!(delete_extra_files("", true, false, &x), DeleteAction::Keep);
    assert_eq!(delete_extra_files(".foxing_tombstones.jsonl", false, false, &x), DeleteAction::Keep);
}

#[test]
fn orphans_are_old_temporary_files() {
    let now = Moment { secs: 10_000, nanos: 5 };
    assert!(run_cleanup(".tmp.x", Moment { secs: 6399, nanos: 0 }, now));
    assert!(run_cleanup(".tmp.x", Moment { secs: 6400, nanos: 4 }, now));
    assert!(!run_cleanup(".tmp.x", Moment { secs: 6400, nanos: 5 }, now));
    assert!(!run_cleanup("x.tmp.", Moment { secs: 0, nanos: 0 }, now));
}

#[test]
fn checkpoints_are_pruned() {
    assert_eq!(stem_of("disk.img"), "disk");
    assert_eq!(stem_of(".hidden"), ".hidden");
    assert_eq!(checkpoint_name("disk.img", 1700), "disk.snap.1700");
    let names = list(&["disk.snap.3", "disk.snap.1", "other.snap.0", "disk.img", "disk.snap.2"]);
    assert_eq!(
        prune_stream_checkpoints(&names, "disk.img", 1),
        list(&["disk.snap.1", "disk.snap.2"])
    );
    assert!(prune_stream_checkpoints(&names, "disk.img", 3).is_empty());
}

#[test]
fn standard_input_is_copied() {
    let mut c = StdinCopy::new(false, 1);
    assert_eq!(c.on_piece(&[0; 10]), PieceAction::Hole);
    assert_eq!(c.on_piece(&[1; 5]), PieceAction::Write { offset: 10 });
    assert!(!c.on_checkpoint());
    assert!(c.on_checkpoint());
    let s = c.finish();
    assert_eq!((s.files_copied, s.bytes_copied, s.bytes_small), (1, 5, 10));
    let mut zero_copy = StdinCopy::new(true, 1);
    assert_eq!(zero_copy.on_piece(&[0; 10]), PieceAction::Write { offset: 0 });
    assert!(checkpoint_due(Some(5), 5));
    assert!(!checkpoint_due(Some(5), 4));
    assert!(!checkpoint_due(None, 100));
}
