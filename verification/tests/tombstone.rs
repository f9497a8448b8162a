use fxcp_core::error::IoKind;
use fxcp_core::tombstone::{
    entry_lines, journal_line, plan_replay, replay_tombstones, Creation, Removed, TombstoneEntry,
    TombstoneJournal,
};

fn entry(path: &str, is_dir: bool, timestamp: i64, seq: u64) -> TombstoneEntry {
    TombstoneEntry { rel_path: path.to_string(), is_dir, timestamp, seq }
}

fn to_json(e: &TombstoneEntry) -> String {
    let path = serde_json::to_string(&e.rel_path).unwrap();
    format!("{{\"p\":{},\"d\":{},\"t\":{},\"s\":{}}}", path, e.is_dir, e.timestamp, e.seq)
}

fn from_json(line: &str) -> Option<TombstoneEntry> {
    let v: serde_json::Value = serde_json::from_str(line).ok()?;
    Some(entry(
        v.get("p")?.as_str()?,
        v.get("d")?.as_bool()?,
        v.get("t")?.as_i64()?,
        v.get("s")?.as_u64()?,
    ))
}

fn append(journal: &mut TombstoneJournal, file: &mut String, e: &TombstoneEntry) {
    file.push_str(&journal_line(&to_json(e)));
    journal.append();
}

fn read_all(journal: &TombstoneJournal, file: &str) -> Vec<TombstoneEntry> {
    journal.read_all(entry_lines(file).iter().map(|l| from_json(l)).collect())
}

#[test]
fn test_append_and_read() {
    let mut journal = TombstoneJournal::open("/j", None);
    let mut file = String::new();

    append(&mut journal, &mut file, &entry("foo/bar.txt", false, 1000, 1));
    append(&mut journal, &mut file, &entry("baz/", true, 1001, 2));

    assert_eq!(journal.len(), 2);
    assert!(!journal.is_empty());

    let entries = read_all(&journal, &file);
    assert_eq!(entries.len(), 2);
    assert_eq!(entries[0].rel_path, "foo/bar.txt");
    assert!(!entries[0].is_dir);
    assert_eq!(entries[1].rel_path, "baz/");
    assert!(entries[1].is_dir);
    assert_eq!((entries[1].timestamp, entries[1].seq), (1001, 2));
    assert_eq!(file.lines().count() as u64, journal.len());
}

#[test]
fn test_malformed_lines_skipped() {
    let mut file = String::new();
    file.push_str("{\"p\":\"good.txt\",\"d\":false,\"t\":1000,\"s\":1}\n");
    file.push_str("this is not json\n");
    file.push_str("{\"p\":\"also-good.txt\",\"d\":false,\"t\":1001,\"s\":2}\n");
    file.push_str("\n");

    let journal = TombstoneJournal::open("/j", Some(4));
    let entries = read_all(&journal, &file);
    assert_eq!(entries.len(), 2);
    assert_eq!(entries[0].rel_path, "good.txt");
    assert_eq!(entries[1].rel_path, "also-good.txt");
}

#[test]
fn awkward_paths_stay_on_their_line() {
    let mut journal = TombstoneJournal::open("/j", None);
    let mut file = String::new();
    append(&mut journal, &mut file, &entry("a\nb\r", false, -5, u64::MAX));
    append(&mut journal, &mut file, &entry("\"q\" \\ \u{e9}", true, i64::MIN, 0));
    assert_eq!(file.matches('\n').count(), 2);
    let entries = read_all(&journal, &file);
    assert_eq!(entries.len(), 2);
    assert_eq!(entries[0].rel_path, "a\nb\r");
    assert_eq!((entries[0].timestamp, entries[0].seq), (-5, u64::MAX));
    assert_eq!(entries[1].rel_path, "\"q\" \\ \u{e9}");
}

#[test]
fn test_clear() {
    let mut journal = TombstoneJournal::open("/j", None);
    let mut file = String::new();
    append(&mut journal, &mut file, &entry("x.txt", false, 1000, 1));
    assert_eq!(journal.len(), 1);

    file.clear();
    journal.clear();
    assert_eq!(journal.len(), 0);
    assert!(journal.is_empty());
    assert!(read_all(&journal, &file).is_empty());
}

#[test]
fn test_compact_removes_old() {
    let mut journal = TombstoneJournal::open("/j", None);
    let now = 1_700_000_000;
    let entries =
        vec![entry("old.txt", false, now - 100_000, 1), entry("new.txt", false, now - 10, 2)];
    journal.append();
    journal.append();

    let (kept, removed) = journal.compact(&entries, &vec![], now, 43200);
    assert_eq!(removed, 1);

    assert_eq!(kept.len(), 1);
    assert_eq!(kept[0].rel_path, "new.txt");
    assert_eq!(journal.len(), 1);
}

#[test]
fn test_replay_tombstones() {
    let entries = vec![
        entry("delete.txt", false, 1000, 1),
        entry("rmdir", true, 1001, 2),
        entry("nonexistent.txt", false, 1002, 3),
    ];
    let plan = plan_replay("/target", &entries, &vec![]);
    let paths: Vec<(&str, bool)> = plan.iter().map(|r| (r.path.as_str(), r.is_dir)).collect();
    assert_eq!(
        paths,
        vec![
            ("/target/delete.txt", false),
            ("/target/rmdir", true),
            ("/target/nonexistent.txt", false)
        ]
    );
    let deleted =
        replay_tombstones(&vec![Removed::Yes, Removed::Yes, Removed::Failed(IoKind::NotFound)]);
    assert_eq!(deleted, 2);
}

#[test]
fn test_empty_journal() {
    let journal = TombstoneJournal::open("nonexistent.jsonl", None);
    assert_eq!(journal.len(), 0);
    assert!(journal.is_empty());
    assert!(entry_lines("").is_empty());
    assert_eq!(journal.path(), "nonexistent.jsonl");
}

#[test]
fn existing_lines_count() {
    assert_eq!(TombstoneJournal::open("/j", Some(7)).len(), 7);
    assert_eq!(entry_lines("a\n\n  \nb\n"), vec!["a", "b"]);
}

#[test]
fn paths_created_again_are_dropped() {
    let mut journal = TombstoneJournal::open("/j", Some(2));
    let entries = vec![entry("a", false, 100, 1), entry("b", false, 100, 2)];
    let created = vec![
        Creation { rel_path: "a".to_string(), timestamp: 101 },
        Creation { rel_path: "b".to_string(), timestamp: 99 },
    ];
    let (kept, removed) = journal.compact(&entries, &created, 200, 1000);
    assert_eq!(removed, 1);
    assert_eq!(kept[0].rel_path, "b");
    let (again, removed) = journal.compact(&kept, &created, 200, 1000);
    assert_eq!((again.len(), removed), (1, 0));
}

#[test]
fn excluded_paths_are_left_alone() {
    let entries = vec![entry("keep.log", false, 1, 1), entry("gone", false, 1, 2)];
    let plan = plan_replay("/t", &entries, &vec!["*.log".to_string()]);
    assert_eq!(plan.len(), 1);
    assert_eq!(plan[0].path, "/t/gone");
}

#[test]
fn replaying_again_removes_nothing() {
    let gone = vec![Removed::Failed(IoKind::NotFound), Removed::Failed(IoKind::NotFound)];
    assert_eq!(replay_tombstones(&gone), 0);
}
