use dropignore::configuration::{MatcherConfig, MatcherSpec};
use dropignore::matcher::Matcher;
use dropignore::traversal::{scan_tree, TreeEntry};

fn spec(pattern: &str) -> MatcherSpec {
    MatcherSpec { pattern: String::from(pattern) }
}

fn matcher(ignore: &[&str], skip: &[&str]) -> Matcher {
    let config = MatcherConfig {
        ignore_specs: Some(ignore.iter().map(|p| spec(p)).collect()),
        skip_specs: Some(skip.iter().map(|p| spec(p)).collect()),
    };
    Matcher::new(&Some(config)).unwrap()
}

fn leaf(path: &str) -> TreeEntry {
    TreeEntry { path: String::from(path), children: vec![] }
}

fn dir(path: &str, children: Vec<TreeEntry>) -> TreeEntry {
    TreeEntry { path: String::from(path), children }
}

/// The tree of the first concrete scenario: `/root/a/build` with `out.o`
/// inside it.
fn build_tree() -> TreeEntry {
    dir(
        "/root",
        vec![dir(
            "/root/a",
            vec![dir("/root/a/build", vec![leaf("/root/a/build/out.o")])],
        )],
    )
}

#[test]
fn scan_marks_build_directory_once() {
    let m = matcher(&["**/build"], &[]);
    let mut marked: Vec<String> = vec![];

    let stats = scan_tree(&m, &build_tree(), &mut marked, false);

    assert_eq!(stats.new_ignores, 1);
    assert_eq!(stats.known_ignores, 0);
    // Only the directory itself is marked; the file beneath it is pruned and
    // never visited.
    assert_eq!(marked, vec![String::from("/root/a/build")]);
}

#[test]
fn rescan_reports_known_not_new() {
    let m = matcher(&["**/build"], &[]);
    let mut marked: Vec<String> = vec![];

    let first = scan_tree(&m, &build_tree(), &mut marked, false);
    assert_eq!((first.known_ignores, first.new_ignores), (0, 1));

    let second = scan_tree(&m, &build_tree(), &mut marked, false);
    assert_eq!((second.known_ignores, second.new_ignores), (1, 0));
    assert_eq!(marked, vec![String::from("/root/a/build")]);
}

#[test]
fn skip_pattern_overrides_ignore_pattern() {
    let m = matcher(&["**/build", "**/target"], &["**/src/build"]);
    assert!(!m.matches("/root/src/build".to_string()));
    assert!(m.matches("/root/lib/build".to_string()));
}

#[test]
fn skipped_path_is_never_marked() {
    let m = matcher(&["**/build"], &["**/src/build"]);
    let tree = dir(
        "/root",
        vec![dir("/root/src", vec![dir("/root/src/build", vec![])])],
    );
    let mut marked: Vec<String> = vec![];

    let stats = scan_tree(&m, &tree, &mut marked, false);

    assert_eq!((stats.known_ignores, stats.new_ignores), (0, 0));
    assert!(marked.is_empty());
}

#[test]
fn dry_run_counts_without_marking() {
    let m = matcher(&["**/build"], &[]);
    let mut marked: Vec<String> = vec![];

    let stats = scan_tree(&m, &build_tree(), &mut marked, true);

    assert_eq!(stats.new_ignores, 1);
    assert_eq!(stats.known_ignores, 0);
    assert!(marked.is_empty());
}

#[test]
fn hidden_entries_are_not_evaluated_during_scan() {
    let m = matcher(&["**/build"], &[]);
    // `.tooling` is hidden: neither it nor the matching `build` beneath it is
    // visited during the tree walk.
    let tree = dir(
        "/root",
        vec![dir(
            "/root/.tooling",
            vec![dir("/root/.tooling/build", vec![])],
        )],
    );
    let mut marked: Vec<String> = vec![];

    let stats = scan_tree(&m, &tree, &mut marked, false);

    assert_eq!((stats.known_ignores, stats.new_ignores), (0, 0));
    assert!(marked.is_empty());
}

#[test]
fn hidden_matching_entry_itself_is_pruned() {
    let m = matcher(&["**/.build"], &[]);
    let tree = dir("/root", vec![dir("/root/.build", vec![])]);
    let mut marked: Vec<String> = vec![];

    let stats = scan_tree(&m, &tree, &mut marked, false);

    assert_eq!((stats.known_ignores, stats.new_ignores), (0, 0));
    assert!(marked.is_empty());
}

#[test]
fn already_marked_store_is_left_unchanged() {
    let m = matcher(&["**/build"], &[]);
    let mut marked = vec![String::from("/root/a/build")];

    let stats = scan_tree(&m, &build_tree(), &mut marked, false);

    assert_eq!((stats.known_ignores, stats.new_ignores), (1, 0));
    assert_eq!(marked, vec![String::from("/root/a/build")]);
}

#[test]
fn sibling_matches_are_each_marked() {
    let m = matcher(&["**/build", "**/target"], &[]);
    let tree = dir(
        "/root",
        vec![
            dir("/root/build", vec![]),
            dir("/root/target", vec![]),
            dir("/root/src", vec![leaf("/root/src/lib.rs")]),
        ],
    );
    let mut marked: Vec<String> = vec![];

    let stats = scan_tree(&m, &tree, &mut marked, false);

    assert_eq!((stats.known_ignores, stats.new_ignores), (0, 2));
    assert_eq!(
        marked,
        vec![String::from("/root/build"), String::from("/root/target")]
    );
}
