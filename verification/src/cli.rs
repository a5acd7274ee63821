//! The seam between the command line and the search core.
//!
//! Everything that can be decided from the argument list alone is
//! decided here: flags are folded into an option snapshot, the
//! pattern and root path are fixed, the pattern is compiled, and the
//! orchestrator is assembled around a fresh pool.  The program layer
//! only reads standard input when asked to, checks what kind of entry
//! the root names, and prints.

use crate::locator::Locator;
use crate::options::{spec_default_options, spec_update, Options, OptionsModel};
use crate::parser::{
    parse_flags, spec_key_views, spec_parse_flags_from, ArgKeyModel, ParseState,
};
use crate::pattern::{spec_regex_valid, Pattern, PatternModel};
use crate::pool::ThreadPool;
use vstd::prelude::*;

verus! {

/// How many worker threads a run's pool is created with.
pub const POOL_SIZE: usize = 17;

/// The command-line state a run is built from: the pattern and root
/// path once fixed, and inline content when standard input is piped
/// in place of a root.
pub struct Cli {
    pub pattern: Option<String>,
    pub path: Option<String>,
    pub inline: Option<String>,
}

/// Why a command line was not turned into a run.
#[derive(Clone, Copy, PartialEq, Eq, Structural, Debug)]
pub enum CliError {
    /// Help was asked for: print the usage text and stop.
    ShowHelp,
    /// No pattern was given.
    MissingPattern,
    /// The pattern is not a valid regular expression.
    InvalidPattern,
}

/// The options left after applying a sequence of parsed keys in
/// order.
pub open spec fn spec_apply_flags(o: OptionsModel, keys: Seq<ArgKeyModel>) -> OptionsModel
    decreases keys.len(),
{
    if keys.len() == 0 {
        o
    } else {
        spec_apply_flags(spec_update(o, keys[0]), keys.subrange(1, keys.len() as int))
    }
}

/// What an argument list parses to: the pattern, the root path, and
/// the flag keys.
pub open spec fn spec_parsed_args(args: Seq<Seq<char>>) -> (
    Option<Seq<char>>,
    Option<Seq<char>>,
    Seq<ArgKeyModel>,
) {
    spec_parse_flags_from(args, 1, ParseState::Pattern, None, None, Seq::empty())
}

/// The option snapshot an argument list decodes to.
pub open spec fn spec_cli_options(args: Seq<Seq<char>>) -> OptionsModel {
    spec_apply_flags(spec_default_options(), spec_parsed_args(args).2)
}

/// Relies on atty::is: whether standard input is a terminal rather
/// than a pipe.  The answer depends on the process's environment, so
/// nothing is promised of it.
#[verifier::external_body]
fn stdin_is_tty() -> bool {
    atty::is(atty::Stream::Stdin)
}

impl Cli {
    /// An empty command-line state.
    pub fn new() -> (r: Cli)
        ensures
            r.pattern is None,
            r.path is None,
            r.inline is None,
    {
        Cli { pattern: None, path: None, inline: None }
    }

    /// Digests an argument list into a ready orchestrator.  Flags are
    /// folded into the option snapshot; a help flag or a missing
    /// pattern stops the run; the pattern is compiled, case folded
    /// when asked, over a fresh pool.  A missing path falls back to
    /// the current directory, and the run is told to read piped
    /// standard input in its place when there is any.
    pub fn parse(&mut self, args: Vec<String>) -> (r: Result<(Locator, bool), CliError>)
        ensures
            r == Err::<(Locator, bool), CliError>(CliError::ShowHelp) <==> spec_cli_options(
                args.deep_view(),
            ).show_help,
            r == Err::<(Locator, bool), CliError>(CliError::MissingPattern) <==> (
            !spec_cli_options(args.deep_view()).show_help && spec_parsed_args(
                args.deep_view(),
            ).0 is None),
            r == Err::<(Locator, bool), CliError>(CliError::InvalidPattern) <==> (
            !spec_cli_options(args.deep_view()).show_help && spec_parsed_args(
                args.deep_view(),
            ).0 is Some && !spec_regex_valid(
                spec_parsed_args(args.deep_view()).0->Some_0,
                spec_cli_options(args.deep_view()).ignore_case,
            )),
            r is Ok <==> (!spec_cli_options(args.deep_view()).show_help && spec_parsed_args(
                args.deep_view(),
            ).0 is Some && spec_regex_valid(
                spec_parsed_args(args.deep_view()).0->Some_0,
                spec_cli_options(args.deep_view()).ignore_case,
            )),
            r matches Ok(ok) ==> {
                let opts = spec_cli_options(args.deep_view());
                let parsed = spec_parsed_args(args.deep_view());
                &&& !opts.show_help
                &&& parsed.0 is Some
                &&& ok.0.wf()
                &&& ok.0@.pool_size == POOL_SIZE
                &&& ok.0@.options == opts
                &&& ok.0@.pattern == (PatternModel::Regex {
                    src: parsed.0->Some_0,
                    ci: opts.ignore_case,
                })
                &&& ok.0@.amount == 0
                &&& ok.0@.pool_submitted == 0
                &&& ok.0@.pool_completed == 0
                &&& !ok.0@.pool_closed
                &&& final(self).pattern matches Some(p) && p@ == parsed.0->Some_0
                &&& (parsed.1 matches Some(q) ==> (final(self).path matches Some(pp) && pp@ == q
                    && !ok.1))
                &&& (parsed.1 is None ==> (final(self).path matches Some(pp) && pp@ == "."@))
            },
            final(self).inline == old(self).inline,
    {
        let (pattern_opt, path_opt, keys) = parse_flags(&args);
        let ghost key_views = spec_key_views(keys@);
        let mut options = Options::new();
        let mut i: usize = 0;
        proof {
            assert(key_views.subrange(0, key_views.len() as int) =~= key_views);
        }
        while i < keys.len()
            invariant
                key_views == spec_key_views(keys@),
                0 <= i <= keys@.len(),
                spec_apply_flags(spec_default_options(), key_views) == spec_apply_flags(
                    options@,
                    key_views.subrange(i as int, key_views.len() as int),
                ),
            decreases keys@.len() - i,
        {
            options.update(&keys[i]);
            proof {
                assert(key_views.subrange(i as int, key_views.len() as int).subrange(
                    1,
                    key_views.len() - i,
                ) =~= key_views.subrange(i + 1, key_views.len() as int));
            }
            i = i + 1;
        }
        proof {
            assert(key_views.subrange(key_views.len() as int, key_views.len() as int).len()
                == 0);
        }
        if options.show_help {
            return Err(CliError::ShowHelp);
        }
        let pattern = match pattern_opt {
            Some(p) => p,
            None => {
                return Err(CliError::MissingPattern);
            },
        };
        let (path, want_stdin) = match path_opt {
            Some(p) => (p, false),
            None => {
                let piped = !stdin_is_tty();
                (".".to_owned(), piped)
            },
        };
        let ignore_case = options.ignore_case;
        let compiled = match Pattern::regex(pattern.clone(), ignore_case) {
            Ok(c) => c,
            Err(_) => {
                return Err(CliError::InvalidPattern);
            },
        };
        self.pattern = Some(pattern);
        self.path = Some(path);
        let locator = Locator::new(ThreadPool::new(POOL_SIZE), compiled, options);
        Ok((locator, want_stdin))
    }
}

} // verus!
