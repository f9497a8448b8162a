use fxcp_core::error::FxcpError;
use fxcp_core::filter::{any_matches, compile_patterns, read_patterns, split_paths, FilterRules};

fn list(items: &[&str]) -> Vec<String> {
    items.iter().map(|s| s.to_string()).collect()
}

#[test]
fn test_no_filters_skips_nothing() {
    let rules = FilterRules::new(&list(&[]), &list(&[]));
    assert!(!rules.should_skip("foo.rs"));
    assert!(!rules.should_skip("dir/bar.tmp"));
}

#[test]
fn test_exclude_matches() {
    let rules = FilterRules::new(&list(&["*.tmp"]), &list(&[]));
    assert!(rules.should_skip("foo.tmp"));
    assert!(!rules.should_skip("foo.rs"));
}

#[test]
fn test_exclude_glob_directory() {
    let rules = FilterRules::new(&list(&[".git/**"]), &list(&[]));
    assert!(rules.should_skip(".git/config"));
    assert!(rules.should_skip(".git/refs/heads/main"));
    assert!(!rules.should_skip("src/main.rs"));
}

#[test]
fn test_include_overrides_exclude() {
    let rules = FilterRules::new(&list(&["*.tmp"]), &list(&["important.tmp"]));
    assert!(rules.should_skip("junk.tmp"));
    assert!(!rules.should_skip("important.tmp"));
    assert!(!rules.should_skip("foo.rs"));
}

#[test]
fn test_exclude_all_include_specific() {
    let rules = FilterRules::new(&list(&["*"]), &list(&["*.rs"]));
    assert!(!rules.should_skip("main.rs"));
    assert!(rules.should_skip("readme.md"));
    assert!(rules.should_skip("data.bin"));
}

#[test]
fn test_multiple_excludes() {
    let rules = FilterRules::new(&list(&["*.tmp", "*.bak", "*.swp"]), &list(&[]));
    assert!(rules.should_skip("foo.tmp"));
    assert!(rules.should_skip("bar.bak"));
    assert!(rules.should_skip("baz.swp"));
    assert!(!rules.should_skip("good.rs"));
}

#[test]
fn test_multiple_includes() {
    let rules = FilterRules::new(&list(&["*"]), &list(&["*.rs", "*.toml", "Makefile"]));
    assert!(!rules.should_skip("main.rs"));
    assert!(!rules.should_skip("Cargo.toml"));
    assert!(!rules.should_skip("Makefile"));
    assert!(rules.should_skip("readme.md"));
}

#[test]
fn test_nested_path_matching() {
    let rules = FilterRules::new(&list(&["target/**"]), &list(&[]));
    assert!(rules.should_skip("target/debug/fxcp"));
    assert!(rules.should_skip("target/release/foxingd"));
    assert!(!rules.should_skip("src/main.rs"));
}

#[test]
fn test_invalid_pattern_ignored() {
    let rules = FilterRules::new(&list(&["[invalid", "*.tmp"]), &list(&[]));
    assert!(rules.should_skip("foo.tmp"));
    assert!(!rules.should_skip("foo.rs"));
}

#[test]
fn test_split_two_args() {
    let (sources, dest) = split_paths(list(&["src", "dst"])).unwrap();
    assert_eq!(sources, list(&["src"]));
    assert_eq!(dest, "dst");
}

#[test]
fn test_split_three_args() {
    let (sources, dest) = split_paths(list(&["file1", "file2", "dest/"])).unwrap();
    assert_eq!(sources, list(&["file1", "file2"]));
    assert_eq!(dest, "dest/");
}

#[test]
fn test_split_many_args() {
    let (sources, dest) = split_paths(list(&["a", "b", "c", "d", "target/"])).unwrap();
    assert_eq!(sources.len(), 4);
    assert_eq!(dest, "target/");
}

#[test]
fn test_split_one_arg_fails() {
    assert!(split_paths(list(&["only"])).is_err());
}

#[test]
fn test_split_empty_fails() {
    let paths: Vec<String> = vec![];
    assert!(split_paths(paths).is_err());
}

#[test]
fn test_read_patterns_basic() {
    let patterns = read_patterns("*.tmp\n*.bak\n*.swp\n");
    assert_eq!(patterns, vec!["*.tmp", "*.bak", "*.swp"]);
}

#[test]
fn test_read_patterns_comments_and_blanks() {
    let patterns = read_patterns("# This is a comment\n*.tmp\n\n# Another comment\n*.bak\n  \n");
    assert_eq!(patterns, vec!["*.tmp", "*.bak"]);
}

#[test]
fn test_read_patterns_empty_file() {
    let patterns = read_patterns("");
    assert!(patterns.is_empty());
}

#[test]
fn test_read_patterns_whitespace_trimmed() {
    let patterns = read_patterns("  *.tmp  \n  *.bak  \n");
    assert_eq!(patterns, vec!["*.tmp", "*.bak"]);
}

#[test]
fn patterns_that_do_not_compile_are_dropped() {
    assert_eq!(compile_patterns(&list(&["a*", "[x", "**", "***"])), list(&["a*", "**"]));
    assert!(any_matches(&list(&["x", "a?c"]), "abc"));
    assert!(!any_matches(&list(&["x", "a?c"]), "ac"));
    assert!(!any_matches(&list(&[]), "ac"));
}

#[test]
fn too_few_paths_are_a_mistake_in_the_call() {
    match split_paths(list(&["only"])) {
        Err(FxcpError::Config(message)) => {
            assert_eq!(message, "requires at least a source and destination")
        }
        other => panic!("{:?}", other),
    }
}
