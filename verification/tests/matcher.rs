use dropignore::configuration::{MatcherConfig, MatcherSpec};
use dropignore::matcher::Matcher;

fn spec(pattern: &str) -> MatcherSpec {
    MatcherSpec { pattern: String::from(pattern) }
}

#[test]
fn no_matches_with_empty_config() {
    let cases = [
        ("/build", false),
        ("/foo/build", false),
        ("/foo/bar/build", false),
        ("/foo/target", false),
        ("/foo/build/bar", false),
        ("/foo/bar", false),
        ("/foo/src/build", false),
    ];

    let matcher_config = MatcherConfig { ignore_specs: None, skip_specs: None };
    let matcher = Matcher::new(&Some(matcher_config)).unwrap();

    for (path, expected) in cases {
        assert_eq!(expected, matcher.matches(path.to_string()));
    }
}

#[test]
fn matches_with_config() {
    let cases = [
        ("/build", true),
        ("/foo/build", true),
        ("/foo/bar/build", true),
        ("/foo/target", true),
        ("/foo/build/bar", false),
        ("/foo/bar", false),
        ("/foo/src/build", false),
    ];

    let matcher_config = MatcherConfig {
        ignore_specs: Some(vec![spec("**/build"), spec("**/target")]),
        skip_specs: Some(vec![spec("**/src/build")]),
    };
    let matcher = Matcher::new(&Some(matcher_config)).unwrap();

    for (path, expected) in cases {
        assert_eq!(expected, matcher.matches(path.to_string()));
    }
}

#[test]
fn broken_configuration() {
    let broken_ignore = MatcherConfig {
        ignore_specs: Some(vec![spec("**/src/bu{ild")]),
        skip_specs: None,
    };
    let broken_skip = MatcherConfig {
        ignore_specs: None,
        skip_specs: Some(vec![spec("**/src/bu{ild")]),
    };

    for matcher_config in [broken_ignore, broken_skip] {
        let matcher = Matcher::new(&Some(matcher_config));
        assert!(matcher.is_err());
        assert!(matcher.err().unwrap().contains("error parsing glob"));
    }
}

#[test]
fn absent_config_matches_nothing() {
    let matcher = Matcher::new(&None).unwrap();
    assert!(!matcher.matches("/foo/build".to_string()));
}
