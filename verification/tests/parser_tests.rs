use titan::parser::{parse_arg, parse_flags, str_eq, ArgKey};

fn strings(items: &[&str]) -> Vec<String> {
    items.iter().map(|s| s.to_string()).collect()
}

#[test]
fn str_eq_compares_characters() {
    assert!(str_eq("abc", "abc"));
    assert!(!str_eq("abc", "abd"));
    assert!(!str_eq("abc", "abcd"));
    assert!(str_eq("", ""));
}

#[test]
fn short_keys_lose_their_dash() {
    let args = strings(&["prog", "-r"]);
    let (key, next) = parse_arg(&args, 1);
    assert!(matches!(key, ArgKey::Short(s) if s == "r"));
    assert_eq!(next, 2);
}

#[test]
fn bare_words_are_kept_whole() {
    let args = strings(&["prog", "needle"]);
    let (key, next) = parse_arg(&args, 1);
    assert!(matches!(key, ArgKey::Short(s) if s == "needle"));
    assert_eq!(next, 2);
}

#[test]
fn inline_values_split_on_commas_and_trim() {
    let args = strings(&["prog", "--ignore=rs, tmp ,log"]);
    let (key, next) = parse_arg(&args, 1);
    match key {
        ArgKey::LongWithArgs((name, values)) => {
            assert_eq!(name, "ignore");
            assert_eq!(values, vec!["rs".to_string(), "tmp".to_string(), "log".to_string()]);
        }
        other => panic!("unexpected key {:?}", other),
    }
    assert_eq!(next, 2);
}

#[test]
fn a_long_key_consumes_the_following_argument() {
    let args = strings(&["prog", "--ignore", "rs"]);
    let (key, next) = parse_arg(&args, 1);
    match key {
        ArgKey::LongWithArgs((name, values)) => {
            assert_eq!(name, "ignore");
            assert_eq!(values, vec!["rs".to_string()]);
        }
        other => panic!("unexpected key {:?}", other),
    }
    assert_eq!(next, 3);
}

#[test]
fn a_final_long_key_stands_alone() {
    let args = strings(&["prog", "--verbose"]);
    let (key, next) = parse_arg(&args, 1);
    assert!(matches!(key, ArgKey::Long(s) if s == "verbose"));
    assert_eq!(next, 2);
}

#[test]
fn pattern_then_path_then_flags() {
    let args = strings(&["prog", "needle", "src", "-r", "--verbose"]);
    let (pattern, path, flags) = parse_flags(&args);
    assert_eq!(pattern, Some("needle".to_string()));
    assert_eq!(path, Some("src".to_string()));
    assert_eq!(flags.len(), 2);
    assert!(matches!(&flags[0], ArgKey::Short(s) if s == "r"));
    assert!(matches!(&flags[1], ArgKey::Long(s) if s == "verbose"));
}

#[test]
fn a_value_flag_before_the_pattern_keeps_the_state() {
    let args = strings(&["prog", "--ignore=rs", "needle", "src"]);
    let (pattern, path, flags) = parse_flags(&args);
    assert_eq!(pattern, Some("needle".to_string()));
    assert_eq!(path, Some("src".to_string()));
    assert_eq!(flags.len(), 1);
}

#[test]
fn missing_tokens_stay_missing() {
    let (pattern, path, flags) = parse_flags(&strings(&["prog"]));
    assert_eq!(pattern, None);
    assert_eq!(path, None);
    assert!(flags.is_empty());

    let (pattern, path, _) = parse_flags(&strings(&["prog", "only-pattern"]));
    assert_eq!(pattern, Some("only-pattern".to_string()));
    assert_eq!(path, None);
}
