use titan::cli::{Cli, CliError};
use titan::pool::ThreadPool;

fn arg_strings(items: &[&str]) -> Vec<String> {
    items.iter().map(|s| s.to_string()).collect()
}

#[test]
fn a_new_pool_is_open_and_empty() {
    let pool = ThreadPool::new(4);
    assert_eq!(pool.pending(), 0);
}

#[test]
fn join_all_accounts_every_submitted_job() {
    let mut pool = ThreadPool::new(4);
    pool.execute();
    pool.execute();
    pool.execute();
    assert_eq!(pool.pending(), 3);
    pool.complete();
    assert_eq!(pool.pending(), 2);
    pool.join_all();
    assert_eq!(pool.pending(), 0);
}

#[test]
fn cli_new_starts_empty() {
    let cli = Cli::new();
    assert!(cli.pattern.is_none());
    assert!(cli.path.is_none());
    assert!(cli.inline.is_none());
}

#[test]
fn a_help_flag_stops_the_run() {
    // The first plain token is always the pattern, so the help flag
    // counts only once pattern and path are fixed.
    let mut cli = Cli::new();
    let r = cli.parse(arg_strings(&["prog", "pat", "dir", "-h"]));
    assert!(matches!(r, Err(CliError::ShowHelp)));
    let mut cli = Cli::new();
    let r = cli.parse(arg_strings(&["prog", "pat", "dir", "--help"]));
    assert!(matches!(r, Err(CliError::ShowHelp)));
}

#[test]
fn a_missing_pattern_stops_the_run() {
    let mut cli = Cli::new();
    let r = cli.parse(arg_strings(&["prog"]));
    assert!(matches!(r, Err(CliError::MissingPattern)));
}

#[test]
fn an_invalid_regex_stops_the_run() {
    let mut cli = Cli::new();
    let r = cli.parse(arg_strings(&["prog", "(", "dir"]));
    assert!(matches!(r, Err(CliError::InvalidPattern)));
}

#[test]
fn a_full_command_line_builds_the_orchestrator() {
    let mut cli = Cli::new();
    let r = cli.parse(arg_strings(&["prog", "foo", "src", "-r", "--ignore=rs,tmp"]));
    let (locator, want_stdin) = r.expect("parse should succeed");
    assert!(!want_stdin);
    assert_eq!(cli.pattern, Some("foo".to_string()));
    assert_eq!(cli.path, Some("src".to_string()));
    let options = locator.options();
    assert!(options.is_recursive);
    assert_eq!(options.ignore, vec!["rs".to_string(), "tmp".to_string()]);
    assert!(locator.pattern.is_match(b"some foo here"));
    assert!(!locator.pattern.is_match(b"nothing"));
}

#[test]
fn a_missing_path_falls_back_to_the_current_directory() {
    let mut cli = Cli::new();
    let r = cli.parse(arg_strings(&["prog", "foo"]));
    assert!(r.is_ok());
    assert_eq!(cli.path, Some(".".to_string()));
}

#[test]
fn case_insensitivity_reaches_the_compiled_pattern() {
    let mut cli = Cli::new();
    let r = cli.parse(arg_strings(&["prog", "foo", ".", "-i"]));
    let (locator, _) = r.expect("parse should succeed");
    assert!(locator.options().ignore_case);
    assert!(locator.pattern.is_match(b"FOO"));
}
