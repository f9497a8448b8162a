use fxcp_core::browser::events::{handle_key, AfterKey, Key};
use fxcp_core::browser::model::{BrowserApp, BrowserMode, BrowserModel, Focus};
use fxcp_core::browser::navigator::{FileNavigator, Item, ItemMeta};

fn item(name: &str, is_dir: bool, size: u64, modified: Option<u64>) -> Item {
    Item {
        name: name.to_string(),
        path: format!("/tmp/{}", name),
        meta: Some(ItemMeta { is_dir, size, modified }),
    }
}

fn some_items() -> Vec<Item> {
    vec![
        item("b.txt", false, 2048, Some(1773484800)),
        item("zeta", true, 0, None),
        item("a.txt", false, 10, None),
        item("alpha", true, 0, None),
        item(".foxing_meta", false, 1, None),
        item(".foxing_versions", true, 0, None),
    ]
}

fn names(nav: &FileNavigator) -> Vec<&str> {
    nav.entries.iter().map(|e| e.name.as_str()).collect()
}

#[test]
fn test_navigator_opens_real_dir() {
    let nav = FileNavigator::new("/tmp", some_items());
    assert!(!nav.entries.is_empty());
    assert_eq!(nav.title, "/tmp");
}

#[test]
fn test_navigator_move_up_down() {
    let mut nav = FileNavigator::new("/tmp", some_items());
    let initial = nav.selected;
    nav.move_down();
    if nav.entries.len() > 1 {
        assert_eq!(nav.selected, initial + 1);
    }
    nav.move_up();
    assert_eq!(nav.selected, initial);
}

#[test]
fn test_navigator_move_up_at_zero() {
    let mut nav = FileNavigator::new("/tmp", some_items());
    nav.selected = 0;
    nav.move_up();
    assert_eq!(nav.selected, 0);
}

#[test]
fn test_navigator_parent_entry() {
    let nav = FileNavigator::new("/tmp", some_items());
    assert!(nav.entries.iter().any(|e| e.name == ".."));
}

#[test]
fn test_navigator_dirs_before_files() {
    let items = vec![item("bbb_file.txt", false, 4, None), item("aaa_dir", true, 0, None)];
    let nav = FileNavigator::new("/tmp/dir", items);
    let non_parent: Vec<_> = nav.entries.iter().filter(|e| e.name != "..").collect();
    if non_parent.len() >= 2 {
        assert!(non_parent[0].is_dir);
        assert!(!non_parent[1].is_dir);
    }
    assert_eq!(non_parent.len(), 2);
}

#[test]
fn listing_is_sorted_and_leaves_metadata_out() {
    let nav = FileNavigator::new("/tmp", some_items());
    assert_eq!(names(&nav), vec!["..", ".foxing_versions", "alpha", "zeta", "a.txt", "b.txt"]);
    assert_eq!(nav.entries[0].path, "/tmp/..");
    assert_eq!(nav.entries[5].size, 2048);
    assert_eq!(nav.entries[5].modified, "2026-03-14 10:40");
    assert_eq!(nav.entries[4].modified, "");
}

#[test]
fn root_has_no_way_up() {
    let mut nav = FileNavigator::new("/", vec![]);
    assert!(nav.entries.is_empty());
    assert!(nav.selected_entry().is_none());
    nav.move_down();
    assert_eq!(nav.selected, 0);
    assert!(!nav.enter());
    assert!(!nav.go_up());
    assert_eq!(nav.current_dir, "/");
}

#[test]
fn items_without_metadata_are_empty_files() {
    let lost = Item { name: "lost".to_string(), path: "/lost".to_string(), meta: None };
    let nav = FileNavigator::new("/", vec![lost]);
    assert_eq!(names(&nav), vec!["lost"]);
    assert!(!nav.entries[0].is_dir);
    assert_eq!(nav.entries[0].size, 0);
    assert_eq!(nav.entries[0].modified, "");
}

#[test]
fn enter_goes_into_directories_only() {
    let mut nav = FileNavigator::new("/tmp", some_items());
    nav.selected = 2;
    assert!(nav.enter());
    assert_eq!(nav.current_dir, "/tmp/alpha");
    assert_eq!(nav.selected, 0);
    nav.refresh(vec![]);
    assert_eq!(names(&nav), vec![".."]);
    assert_eq!(nav.title, "/tmp/alpha");
    assert!(nav.enter());
    assert_eq!(nav.current_dir, "/tmp");
    nav.refresh(some_items());
    nav.selected = 4;
    assert!(!nav.enter());
    assert_eq!(nav.current_dir, "/tmp");
}

#[test]
fn refresh_keeps_the_selection_within() {
    let mut nav = FileNavigator::new("/tmp", some_items());
    nav.selected = 5;
    nav.refresh(vec![item("one", false, 1, None)]);
    assert_eq!(nav.selected, 1);
    assert_eq!(nav.selected_entry().unwrap().name, "one");
}

fn browser() -> BrowserModel {
    let left: Vec<Item> = (0..50).map(|i| item(&format!("f{:02}", i), false, i, None)).collect();
    BrowserModel::new(
        FileNavigator::new("/tmp", left),
        FileNavigator::new("/var/lib", some_items()),
        BrowserMode::FilesystemSnapshots,
    )
}

#[test]
fn keys_move_the_selection() {
    let mut m = browser();
    assert_eq!(handle_key(&mut m, Key::PageDown, false, ""), AfterKey::Nothing);
    assert_eq!(m.left.selected, 20);
    handle_key(&mut m, Key::Down, false, "");
    handle_key(&mut m, Key::Char('j'), false, "");
    assert_eq!(m.left.selected, 22);
    handle_key(&mut m, Key::PageUp, false, "");
    assert_eq!(m.left.selected, 2);
    handle_key(&mut m, Key::PageUp, false, "");
    assert_eq!(m.left.selected, 0);
    handle_key(&mut m, Key::End, false, "");
    assert_eq!(m.left.selected, 50);
    handle_key(&mut m, Key::PageDown, false, "");
    assert_eq!(m.left.selected, 50);
    handle_key(&mut m, Key::Up, false, "");
    handle_key(&mut m, Key::Char('k'), false, "");
    assert_eq!(m.left.selected, 48);
    handle_key(&mut m, Key::Home, false, "");
    assert_eq!(m.left.selected, 0);
    assert_eq!(m.right.selected, 0);
}

#[test]
fn keys_quit() {
    for (key, ctrl) in [(Key::Char('q'), false), (Key::Char('Q'), false), (Key::Char('c'), true)] {
        let mut m = browser();
        assert_eq!(handle_key(&mut m, key, ctrl, ""), AfterKey::Quit);
        assert!(m.should_quit);
    }
    let mut m = browser();
    assert_eq!(handle_key(&mut m, Key::Char('c'), false, ""), AfterKey::Nothing);
    assert!(!m.should_quit);
    assert_eq!(m.status_message, "Copy: not yet implemented in TUI");
}

#[test]
fn keys_switch_and_walk() {
    let mut m = browser();
    handle_key(&mut m, Key::Tab, false, "");
    assert_eq!(m.focus, Focus::Right);
    handle_key(&mut m, Key::Down, false, "");
    assert_eq!(m.right.selected, 1);
    assert_eq!(m.left.selected, 0);
    assert_eq!(handle_key(&mut m, Key::Backspace, false, ""), AfterKey::ReadActive);
    assert_eq!(m.right.current_dir, "/var");
    assert_eq!(m.active_nav().current_dir, "/var");
    handle_key(&mut m, Key::Tab, false, "");
    assert_eq!(m.focus, Focus::Left);
    assert_eq!(handle_key(&mut m, Key::Enter, false, ""), AfterKey::ReadActive);
    assert_eq!(m.left.current_dir, "/");
    assert_eq!(handle_key(&mut m, Key::Esc, false, ""), AfterKey::Nothing);
    assert_eq!(handle_key(&mut m, Key::F(5), false, ""), AfterKey::ReadBoth);
    assert_eq!(m.status_message, "Refreshed");
    assert_eq!(handle_key(&mut m, Key::F(6), false, ""), AfterKey::Nothing);
    assert_eq!(handle_key(&mut m, Key::Other, false, ""), AfterKey::Nothing);
}

#[test]
fn keys_show_messages() {
    let mut m = browser();
    assert_eq!(m.status_text(""), " .. │ DIR │ ");
    handle_key(&mut m, Key::Char('i'), false, "");
    assert_eq!(m.status_message, ".. | DIR | ");
    handle_key(&mut m, Key::Down, false, "");
    handle_key(&mut m, Key::Char('I'), false, "0 B");
    assert_eq!(m.status_message, "f00 | 0 B | ");
    assert_eq!(m.status_text("0B"), " f00 | 0 B | ");
    handle_key(&mut m, Key::Char('r'), false, "");
    assert_eq!(m.status_message, "Restore: not yet implemented in TUI");
    handle_key(&mut m, Key::Char('E'), false, "");
    assert_eq!(m.status_message, "Export: not yet implemented in TUI");
}

#[test]
fn status_without_a_selection() {
    let m = BrowserModel::new(
        FileNavigator::new("/", vec![]),
        FileNavigator::new("/", vec![]),
        BrowserMode::ArchiveBrowse,
    );
    assert_eq!(m.status_text("1B"), " No selection");
}

#[test]
fn apps_begin_beside_their_paths() {
    assert_eq!(BrowserApp::right_path("/data", true), "/data/.foxing_versions");
    let app = BrowserApp::new("/data", false, vec![], vec![]);
    assert_eq!(app.model.right.current_dir, "/data");
    assert_eq!(app.model.mode, BrowserMode::FilesystemSnapshots);
    let app = BrowserApp::new_archive("/arch/a.fxar", "/out", vec![], vec![]);
    assert_eq!(app.model.left.current_dir, "/arch");
    assert_eq!(app.model.right.current_dir, "/out");
    assert_eq!(app.model.mode, BrowserMode::ArchiveBrowse);
    assert_eq!(BrowserApp::archive_dir("/"), ".");
    assert_eq!(BrowserApp::archive_dir("a.fxar"), "");
}
