use titan::color::{color_wrap, Color};
use titan::matcher::{get_matches, process_chunk, Match};
use titan::pattern::Pattern;

fn red(s: &[u8]) -> Vec<u8> {
    color_wrap(s, Color::Red)
}

#[test]
fn match_new_keeps_its_fields() {
    let m = Match::new(b"body".to_vec(), 7);
    assert_eq!(m.content, b"body".to_vec());
    assert_eq!(m.line, 7);
}

#[test]
fn substring_scenario_normal_and_inverted() {
    // Lines foo / bar foo / baz with pattern foo: lines 1 and 2 in
    // that order; inverted, only line 3.
    let content = b"foo\nbar foo\nbaz";
    let pattern = Pattern::substring(b"foo".to_vec(), false);

    let normal = get_matches(&pattern, content, false);
    assert_eq!(normal.len(), 2);
    assert_eq!(normal[0].line, 1);
    assert_eq!(normal[1].line, 2);

    let inverted = get_matches(&pattern, content, true);
    assert_eq!(inverted.len(), 1);
    assert_eq!(inverted[0].line, 3);
    assert_eq!(inverted[0].content, red(b"baz"));
}

#[test]
fn regex_scenario_normal_and_inverted() {
    let content = b"foo\nbar foo\nbaz";
    let pattern = Pattern::regex("foo".to_string(), false).unwrap();

    let normal = get_matches(&pattern, content, false);
    assert_eq!(normal.len(), 2);
    assert_eq!(normal[0].line, 1);
    assert_eq!(normal[1].line, 2);

    let inverted = get_matches(&pattern, content, true);
    assert_eq!(inverted.len(), 1);
    assert_eq!(inverted[0].line, 3);
}

#[test]
fn invert_line_numbers_partition_the_source() {
    let content = b"cat\ndog\ncatalog\nbird\n";
    let pattern = Pattern::substring(b"cat".to_vec(), false);
    let normal: Vec<usize> = get_matches(&pattern, content, false).iter().map(|m| m.line).collect();
    let inverted: Vec<usize> =
        get_matches(&pattern, content, true).iter().map(|m| m.line).collect();
    assert_eq!(normal, vec![1, 3]);
    assert_eq!(inverted, vec![2, 4]);
    let mut all = normal.clone();
    all.extend(&inverted);
    all.sort();
    assert_eq!(all, vec![1, 2, 3, 4]);
}

#[test]
fn substring_highlight_wraps_first_occurrence_in_red() {
    let content = b"say foo and foo";
    let pattern = Pattern::substring(b"foo".to_vec(), false);
    let records = get_matches(&pattern, content, false);
    assert_eq!(records.len(), 1);
    let mut expected = b"say ".to_vec();
    expected.extend_from_slice(&red(b"foo"));
    expected.extend_from_slice(b" and foo");
    assert_eq!(records[0].content, expected);
}

#[test]
fn regex_highlight_wraps_every_matched_span_in_red() {
    let content = b"say foo and foo";
    let pattern = Pattern::regex("foo".to_string(), false).unwrap();
    let records = get_matches(&pattern, content, false);
    assert_eq!(records.len(), 1);
    let mut expected = b"say ".to_vec();
    expected.extend_from_slice(&red(b"foo"));
    expected.extend_from_slice(b" and ");
    expected.extend_from_slice(&red(b"foo"));
    assert_eq!(records[0].content, expected);
}

#[test]
fn case_insensitive_substring_matches_either_case() {
    let pattern = Pattern::substring(b"Foo".to_vec(), true);
    assert!(pattern.is_match(b"FOO fighters"));
    assert!(pattern.is_match(b"a foo b"));
    assert!(!pattern.is_match(b"fo o"));
    let sensitive = Pattern::substring(b"Foo".to_vec(), false);
    assert!(!sensitive.is_match(b"a foo b"));
}

#[test]
fn case_insensitive_regex_matches_either_case() {
    let pattern = Pattern::regex("fo+".to_string(), true).unwrap();
    assert!(pattern.is_match(b"FOO"));
    assert!(pattern.is_match(b"foo"));
    assert!(!pattern.is_match(b"fb"));
}

#[test]
fn process_chunk_offsets_line_numbers_by_base() {
    let chunk = b"foo\nother\nfoo\n";
    let pattern = Pattern::substring(b"foo".to_vec(), false);
    let records = process_chunk(&pattern, chunk, false, 10);
    assert_eq!(records.len(), 2);
    assert_eq!(records[0].line, 11);
    assert_eq!(records[1].line, 13);
}

#[test]
fn ordering_holds_across_chunk_boundaries() {
    // Force several chunks: about 2.5 MiB of numbered lines against
    // the fixed 1 MiB target, a match every 1000th line.
    let mut content = Vec::new();
    let mut expected_lines = Vec::new();
    for i in 1..=50_000u32 {
        if i % 1000 == 0 {
            content.extend_from_slice(format!("needle at {:040}\n", i).as_bytes());
            expected_lines.push(i as usize);
        } else {
            content.extend_from_slice(format!("padding line {:040}\n", i).as_bytes());
        }
    }
    assert!(content.len() > 2 * 1024 * 1024);
    let pattern = Pattern::substring(b"needle".to_vec(), false);
    let records = get_matches(&pattern, &content, false);
    let lines: Vec<usize> = records.iter().map(|m| m.line).collect();
    assert_eq!(lines, expected_lines);
    for pair in lines.windows(2) {
        assert!(pair[0] < pair[1]);
    }
}

#[test]
fn empty_needle_matches_every_line() {
    let pattern = Pattern::substring(Vec::new(), false);
    let records = get_matches(&pattern, b"a\nb", false);
    assert_eq!(records.len(), 2);
}

#[test]
fn invalid_regex_is_rejected() {
    assert!(Pattern::regex("(".to_string(), false).is_err());
    assert!(Pattern::regex("a(b".to_string(), true).is_err());
    assert!(Pattern::regex("a+b".to_string(), false).is_ok());
}

#[test]
fn duplicated_pattern_matches_like_the_original() {
    let pattern = Pattern::regex("ab?c".to_string(), true).unwrap();
    let copy = pattern.duplicate();
    assert!(copy.is_match(b"xxACxx"));
    assert!(!copy.is_match(b"xx"));
    let sub = Pattern::substring(b"ac".to_vec(), false);
    let sub_copy = sub.duplicate();
    assert!(sub_copy.is_match(b"acid"));
}
