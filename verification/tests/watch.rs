use dropignore::dropbox::Dropbox;
use dropignore::matcher::Matcher;
use dropignore::configuration::{MatcherConfig, MatcherSpec};
use dropignore::scanner::{ChangeEvent, EntryOutcome, ScanStats, Scanner};

fn scanner(ignore: &[&str], skip: &[&str]) -> Scanner {
    let config = MatcherConfig {
        ignore_specs: Some(
            ignore.iter().map(|p| MatcherSpec { pattern: String::from(*p) }).collect(),
        ),
        skip_specs: Some(
            skip.iter().map(|p| MatcherSpec { pattern: String::from(*p) }).collect(),
        ),
    };
    let matcher = Matcher::new(&Some(config)).unwrap();
    let dropbox = Dropbox::new().unwrap();
    Scanner::new(matcher, dropbox).unwrap()
}

#[test]
fn event_burst_marks_only_the_ignored_directory() {
    let s = scanner(&["**/build"], &[]);
    let mut stats = ScanStats::new();

    // A debounced burst after `mkdir -p` and a compile: one event for the
    // new ignored directory, then many for files beneath it. Only the
    // directory itself is actionable; nothing beneath it matches.
    let outcome = s.handle_event(
        &ChangeEvent::Created(String::from("/root/x/build")),
        true,
        &mut stats,
    );
    assert_eq!(outcome, Some(EntryOutcome::WouldMark));

    for i in 0..50 {
        let path = format!("/root/x/build/obj{}.o", i);
        let outcome = s.handle_event(&ChangeEvent::Created(path), true, &mut stats);
        assert_eq!(outcome, Some(EntryOutcome::Descend));
    }

    assert_eq!(stats.new_ignores, 1);
    assert_eq!(stats.known_ignores, 0);
}

#[test]
fn events_evaluate_hidden_paths() {
    let s = scanner(&["**/.build"], &[]);
    let mut stats = ScanStats::new();

    // During watch the hidden-name rule does not apply: a hidden path that
    // matches an ignore pattern is acted upon.
    let outcome = s.handle_event(
        &ChangeEvent::Created(String::from("/root/.build")),
        true,
        &mut stats,
    );
    assert_eq!(outcome, Some(EntryOutcome::WouldMark));
    assert_eq!(stats.new_ignores, 1);
}

#[test]
fn irrelevant_events_are_ignored() {
    let s = scanner(&["**/build"], &[]);
    let mut stats = ScanStats::new();

    let outcome = s.handle_event(&ChangeEvent::Other, true, &mut stats);
    assert_eq!(outcome, None);
    assert_eq!((stats.known_ignores, stats.new_ignores), (0, 0));
}

#[test]
fn every_relevant_event_kind_carries_its_path() {
    let s = scanner(&["**/build"], &[]);
    let mut stats = ScanStats::new();

    let events = [
        ChangeEvent::Created(String::from("/a/build")),
        ChangeEvent::MetadataChanged(String::from("/b/build")),
        ChangeEvent::RenamedTo(String::from("/c/build")),
        ChangeEvent::Written(String::from("/d/build")),
    ];
    for event in events {
        let outcome = s.handle_event(&event, true, &mut stats);
        assert_eq!(outcome, Some(EntryOutcome::WouldMark));
    }
    assert_eq!(stats.new_ignores, 4);
}

#[test]
fn mark_failure_is_counted_and_not_fatal() {
    let s = scanner(&["**/build"], &[]);
    let mut stats = ScanStats::new();

    // Not a dry run, and the path does not exist, so the mark write fails;
    // the failure is surfaced as an outcome and the path is still counted.
    let outcome = s.handle_event(
        &ChangeEvent::Created(String::from("/nonexistent/dropignore-testing/build")),
        false,
        &mut stats,
    );
    assert_eq!(outcome, Some(EntryOutcome::MarkFailed));
    assert_eq!(stats.new_ignores, 1);
}
