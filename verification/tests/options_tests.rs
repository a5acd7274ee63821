use titan::options::Options;
use titan::parser::ArgKey;

#[test]
fn defaults_are_parallel_and_quiet() {
    let o = Options::new();
    assert!(o.is_parallel);
    assert!(!o.is_recursive);
    assert!(!o.invert_match);
    assert!(!o.show_help);
    assert!(!o.hidden);
    // Deliberate default: errors are not reported until asked for.
    assert!(!o.show_errors);
    assert!(!o.verbose);
    assert!(!o.ignore_case);
    assert!(o.ignore.is_empty());
    assert!(o.include_ext.is_empty());
}

#[test]
fn short_keys_set_their_flags() {
    let mut o = Options::new();
    o.update(&ArgKey::Short("r".to_string()));
    o.update(&ArgKey::Short("v".to_string()));
    o.update(&ArgKey::Short("x".to_string()));
    o.update(&ArgKey::Short("i".to_string()));
    o.update(&ArgKey::Short("h".to_string()));
    assert!(o.is_recursive);
    assert!(o.invert_match);
    assert!(o.show_errors);
    assert!(o.ignore_case);
    assert!(o.show_help);
}

#[test]
fn long_keys_set_their_flags() {
    let mut o = Options::new();
    o.update(&ArgKey::Long("single-thread".to_string()));
    o.update(&ArgKey::Long("recursive".to_string()));
    o.update(&ArgKey::Long("invert-match".to_string()));
    o.update(&ArgKey::Long("hidden".to_string()));
    o.update(&ArgKey::Long("show-errors".to_string()));
    o.update(&ArgKey::Long("verbose".to_string()));
    o.update(&ArgKey::Long("ignore-case".to_string()));
    assert!(!o.is_parallel);
    assert!(o.is_recursive);
    assert!(o.invert_match);
    assert!(o.hidden);
    assert!(o.show_errors);
    assert!(o.verbose);
    assert!(o.ignore_case);
    assert!(!o.show_help);
    o.update(&ArgKey::Long("help".to_string()));
    assert!(o.show_help);
}

#[test]
fn unknown_keys_change_nothing() {
    let mut o = Options::new();
    o.update(&ArgKey::Short("q".to_string()));
    o.update(&ArgKey::Long("frobnicate".to_string()));
    o.update(&ArgKey::LongWithArgs(("exclude".to_string(), vec!["rs".to_string()])));
    let fresh = Options::new();
    assert_eq!(o.is_parallel, fresh.is_parallel);
    assert_eq!(o.is_recursive, fresh.is_recursive);
    assert!(o.ignore.is_empty());
    assert!(o.include_ext.is_empty());
}

#[test]
fn value_keys_extend_their_lists() {
    let mut o = Options::new();
    o.update(&ArgKey::LongWithArgs(("ignore".to_string(), vec![
        "rs".to_string(),
        "tmp".to_string(),
    ])));
    o.update(&ArgKey::LongWithArgs(("ignore".to_string(), vec!["log".to_string()])));
    o.update(&ArgKey::LongWithArgs(("include".to_string(), vec!["md".to_string()])));
    assert_eq!(o.ignore, vec!["rs".to_string(), "tmp".to_string(), "log".to_string()]);
    assert_eq!(o.include_ext, vec!["md".to_string()]);
}

#[test]
fn ignores_and_includes_append() {
    let mut o = Options::new();
    o.ignores(vec!["a".to_string()]);
    o.ignores(vec!["b".to_string()]);
    o.includes(vec!["c".to_string()]);
    assert_eq!(o.ignore, vec!["a".to_string(), "b".to_string()]);
    assert_eq!(o.include_ext, vec!["c".to_string()]);
}

#[test]
fn duplicate_copies_every_field() {
    let mut o = Options::new();
    o.update(&ArgKey::Short("r".to_string()));
    o.ignores(vec!["rs".to_string()]);
    let copy = o.duplicate();
    assert_eq!(copy.is_recursive, o.is_recursive);
    assert_eq!(copy.ignore, o.ignore);
    assert_eq!(copy.is_parallel, o.is_parallel);
}
