use titan::color::{color_wrap, Color};
use titan::locator::{
    base_name, bytes_eq, error_line, extension_of, render_report, EntryKind, Locator, RootAction,
    WalkAction,
};
use titan::matcher::Match;
use titan::options::Options;
use titan::parser::ArgKey;
use titan::pattern::Pattern;
use titan::pool::ThreadPool;

fn locator_with(options: Options) -> Locator {
    Locator::new(ThreadPool::new(2), Pattern::substring(b"foo".to_vec(), false), options)
}

#[test]
fn base_name_is_what_follows_the_last_slash() {
    assert_eq!(base_name(b"a/b/c.txt"), b"c.txt".to_vec());
    assert_eq!(base_name(b"plain"), b"plain".to_vec());
    assert_eq!(base_name(b"dir/"), b"".to_vec());
}

#[test]
fn extension_is_what_follows_the_last_dot() {
    assert_eq!(extension_of(b"c.txt"), Some(b"txt".to_vec()));
    assert_eq!(extension_of(b"archive.tar.gz"), Some(b"gz".to_vec()));
    assert_eq!(extension_of(b"noext"), None);
    assert_eq!(extension_of(b".bashrc"), None);
    assert_eq!(extension_of(b"trailing."), Some(b"".to_vec()));
}

#[test]
fn bytes_eq_compares_contents() {
    assert!(bytes_eq(b"abc", b"abc"));
    assert!(!bytes_eq(b"abc", b"abd"));
    assert!(!bytes_eq(b"abc", b"ab"));
}

#[test]
fn ignored_extension_is_never_searched() {
    let mut options = Options::new();
    options.ignores(vec!["rs".to_string()]);
    let locator = locator_with(options);
    assert_eq!(locator.plan_entry(EntryKind::File, b"src/main.rs"), WalkAction::Skip);
    assert_eq!(locator.plan_entry(EntryKind::File, b"src/notes.txt"), WalkAction::SearchOnPool);
}

#[test]
fn hidden_entries_are_skipped_unless_shown() {
    let locator = locator_with(Options::new());
    assert_eq!(locator.plan_entry(EntryKind::File, b"dir/.secret"), WalkAction::Skip);
    assert_eq!(locator.plan_entry(EntryKind::Dir, b"dir/.git"), WalkAction::Skip);

    let mut options = Options::new();
    options.update(&ArgKey::Long("hidden".to_string()));
    let showing = locator_with(options);
    assert_eq!(showing.plan_entry(EntryKind::File, b"dir/.secret"), WalkAction::SearchOnPool);
}

#[test]
fn directories_are_entered_only_recursively() {
    let flat = locator_with(Options::new());
    assert_eq!(flat.plan_entry(EntryKind::Dir, b"root/sub"), WalkAction::Skip);

    let mut options = Options::new();
    options.update(&ArgKey::Short("r".to_string()));
    let deep = locator_with(options);
    assert_eq!(deep.plan_entry(EntryKind::Dir, b"root/sub"), WalkAction::Recurse);
}

#[test]
fn single_thread_mode_searches_in_place() {
    let mut options = Options::new();
    options.update(&ArgKey::Long("single-thread".to_string()));
    let locator = locator_with(options);
    assert_eq!(locator.plan_entry(EntryKind::File, b"a/b.txt"), WalkAction::SearchNow);
}

#[test]
fn root_dispatch_follows_the_entry_kind() {
    let locator = locator_with(Options::new());
    assert_eq!(locator.plan_root(true, EntryKind::Other, b"ignored"), RootAction::SearchInline);
    assert_eq!(locator.plan_root(false, EntryKind::File, b"f.txt"), RootAction::SearchFile);
    assert_eq!(locator.plan_root(false, EntryKind::Dir, b"d"), RootAction::WalkDir);
    assert_eq!(locator.plan_root(false, EntryKind::Other, b"missing"), RootAction::Skip);

    let mut options = Options::new();
    options.ignores(vec!["rs".to_string()]);
    let skipping = locator_with(options);
    assert_eq!(skipping.plan_root(false, EntryKind::File, b"lib.rs"), RootAction::Skip);
}

#[test]
fn a_record_renders_as_location_colon_content() {
    let m = Match::new(b"hello".to_vec(), 12);
    let mut expected = color_wrap(b"12", Color::Yellow);
    expected.extend_from_slice(b": ");
    expected.extend_from_slice(b"hello");
    assert_eq!(m.render(), expected);
    assert_eq!(m.location(), color_wrap(b"12", Color::Yellow));
}

#[test]
fn empty_reports_render_as_nothing() {
    let label = b"some/file".to_vec();
    assert_eq!(render_report(Some(&label), &Vec::new()), Vec::<u8>::new());
    assert_eq!(render_report(None, &Vec::new()), Vec::<u8>::new());
}

#[test]
fn labeled_reports_open_with_the_blue_path() {
    let label = b"dir/file.txt".to_vec();
    let records = vec![Match::new(b"one".to_vec(), 1), Match::new(b"two".to_vec(), 2)];
    let rendered = render_report(Some(&label), &records);
    let mut expected = b"\n".to_vec();
    expected.extend_from_slice(&color_wrap(b"dir/file.txt", Color::Blue));
    expected.push(b'\n');
    expected.extend_from_slice(&records[0].render());
    expected.push(b'\n');
    expected.extend_from_slice(&records[1].render());
    assert_eq!(rendered, expected);
}

#[test]
fn unlabeled_reports_open_with_a_blank_line() {
    let records = vec![Match::new(b"one".to_vec(), 1)];
    let rendered = render_report(None, &records);
    let mut expected = b"\n".to_vec();
    expected.extend_from_slice(&records[0].render());
    assert_eq!(rendered, expected);
}

#[test]
fn error_lines_name_the_path_and_the_reason() {
    assert_eq!(error_line(b"locked/dir", b"permission denied"),
        b"locked/dir: permission denied".to_vec());
}

#[test]
fn searching_content_produces_the_labeled_report() {
    let mut locator = locator_with(Options::new());
    let path = b"notes.txt".to_vec();
    let report = locator.search_file_content(&path, b"foo\nbar\n");
    assert!(!report.is_empty());
    let mut expected = b"\n".to_vec();
    expected.extend_from_slice(&color_wrap(b"notes.txt", Color::Blue));
    expected.push(b'\n');
    let mut body = color_wrap(b"1", Color::Yellow);
    body.extend_from_slice(b": ");
    body.extend_from_slice(&color_wrap(b"foo", Color::Red));
    expected.extend_from_slice(&body);
    assert_eq!(report, expected);
    assert_eq!(locator.amount, 1);
}

#[test]
fn searching_inline_content_needs_no_label() {
    let mut locator = locator_with(Options::new());
    let report = locator.search_inline(b"nothing here\n");
    assert!(report.is_empty());
    assert_eq!(locator.amount, 0);

    let report = locator.search_inline(b"foo here\n");
    assert!(report.starts_with(b"\n"));
    assert_eq!(locator.amount, 1);
}

#[test]
fn invert_searches_count_non_matching_lines() {
    let mut options = Options::new();
    options.update(&ArgKey::Short("v".to_string()));
    let mut locator = locator_with(options);
    let path = b"f".to_vec();
    let _ = locator.search_file_content(&path, b"foo\nbar\nbaz\n");
    assert_eq!(locator.amount, 2);
}
