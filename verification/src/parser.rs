//! Tokenizing command-line arguments into typed keys.
//!
//! An argument list is walked once, by a small state machine: the
//! first plain token is the pattern, the second the root path, and
//! everything else a flag.  `--name=v1,v2` carries its values inline,
//! comma-separated and trimmed of ASCII whitespace; `--name value`
//! consumes the following token as its value; a final `--name` stands
//! alone; `-abc` is the short key `abc`.

use vstd::prelude::*;

verus! {

/// One parsed command-line token.
#[derive(Debug)]
pub enum ArgKey {
    Short(String),
    Long(String),
    LongWithArgs((String, Vec<String>)),
}

/// A parsed token as contracts see it.
pub ghost enum ArgKeyModel {
    Short(Seq<char>),
    Long(Seq<char>),
    LongWithArgs(Seq<char>, Seq<Seq<char>>),
}

impl View for ArgKey {
    type V = ArgKeyModel;

    open spec fn view(&self) -> ArgKeyModel {
        match self {
            ArgKey::Short(s) => ArgKeyModel::Short(s@),
            ArgKey::Long(s) => ArgKeyModel::Long(s@),
            ArgKey::LongWithArgs((k, vs)) => ArgKeyModel::LongWithArgs(k@, vs.deep_view()),
        }
    }
}

/// The views of a sequence of parsed tokens.
pub open spec fn spec_key_views(ks: Seq<ArgKey>) -> Seq<ArgKeyModel> {
    ks.map_values(|k: ArgKey| k@)
}

/// Whether two string slices hold the same characters.
pub fn str_eq(a: &str, b: &str) -> (r: bool)
    ensures
        r == (a@ == b@),
{
    let x: String = a.to_owned();
    let y: String = b.to_owned();
    x == y
}

/// Index of the first occurrence of `c` in `s` at or after `from`;
/// `s.len()` when there is none.
pub open spec fn spec_find_char(s: Seq<char>, c: char, from: int) -> int
    decreases s.len() - from,
{
    if from < 0 || from >= s.len() {
        s.len() as int
    } else if s[from] == c {
        from
    } else {
        spec_find_char(s, c, from + 1)
    }
}

pub proof fn lemma_find_char(s: Seq<char>, c: char, from: int)
    requires
        0 <= from <= s.len(),
    ensures
        from <= spec_find_char(s, c, from) <= s.len(),
        spec_find_char(s, c, from) < s.len() ==> s[spec_find_char(s, c, from)] == c,
    decreases s.len() - from,
{
    if from < s.len() && s[from] != c {
        lemma_find_char(s, c, from + 1);
    }
}

/// Finds the first occurrence of `c` in `s` at or after `from`.
fn find_char_from(s: &str, c: char, from: usize, s_len: usize) -> (r: usize)
    requires
        from <= s@.len(),
        s_len == s@.len(),
    ensures
        from <= r <= s@.len(),
        r as int == spec_find_char(s@, c, from as int),
{
    let mut i: usize = from;
    loop
        invariant
            from <= i <= s@.len(),
            s_len == s@.len(),
            spec_find_char(s@, c, from as int) == spec_find_char(s@, c, i as int),
        decreases s@.len() - i,
    {
        if i >= s_len {
            return i;
        }
        if s.get_char(i) == c {
            return i;
        }
        i = i + 1;
    }
}

/// ASCII whitespace, as trimming sees it.
pub open spec fn spec_is_ws(c: char) -> bool {
    c == ' ' || c == '\t' || c == '\r' || c == '\n'
}

/// `s` with its leading ASCII whitespace removed.
pub open spec fn spec_trim_start(s: Seq<char>) -> Seq<char>
    decreases s.len(),
{
    if s.len() == 0 {
        s
    } else if spec_is_ws(s[0]) {
        spec_trim_start(s.subrange(1, s.len() as int))
    } else {
        s
    }
}

/// `s` with its trailing ASCII whitespace removed.
pub open spec fn spec_trim_end(s: Seq<char>) -> Seq<char>
    decreases s.len(),
{
    if s.len() == 0 {
        s
    } else if spec_is_ws(s.last()) {
        spec_trim_end(s.subrange(0, s.len() - 1))
    } else {
        s
    }
}

/// `s` with ASCII whitespace removed from both ends.
pub open spec fn spec_trim(s: Seq<char>) -> Seq<char> {
    spec_trim_end(spec_trim_start(s))
}

fn is_ws(c: char) -> (r: bool)
    ensures
        r == spec_is_ws(c),
{
    c == ' ' || c == '\t' || c == '\r' || c == '\n'
}

/// A copy of the characters of `s` between `from` and `to`, trimmed of
/// ASCII whitespace on both ends.
fn trim_range(s: &str, from: usize, to: usize, s_len: usize) -> (r: String)
    requires
        from <= to <= s@.len(),
        s_len == s@.len(),
    ensures
        r@ == spec_trim(s@.subrange(from as int, to as int)),
{
    let ghost piece = s@.subrange(from as int, to as int);
    let mut a: usize = from;
    while a < to && is_ws(s.get_char(a))
        invariant
            from <= a <= to <= s@.len(),
            s_len == s@.len(),
            spec_trim_start(piece) == spec_trim_start(s@.subrange(a as int, to as int)),
        decreases to - a,
    {
        proof {
            assert(s@.subrange(a as int, to as int).subrange(
                1,
                s@.subrange(a as int, to as int).len() as int,
            ) =~= s@.subrange(a as int + 1, to as int));
        }
        a = a + 1;
    }
    proof {
        assert(spec_trim_start(piece) == s@.subrange(a as int, to as int));
    }
    let mut b: usize = to;
    while b > a && is_ws(s.get_char(b - 1))
        invariant
            from <= a <= b <= to <= s@.len(),
            s_len == s@.len(),
            spec_trim_start(piece) == s@.subrange(a as int, to as int),
            spec_trim_end(s@.subrange(a as int, to as int)) == spec_trim_end(
                s@.subrange(a as int, b as int),
            ),
        decreases b,
    {
        proof {
            assert(s@.subrange(a as int, b as int).subrange(
                0,
                s@.subrange(a as int, b as int).len() - 1,
            ) =~= s@.subrange(a as int, b as int - 1));
        }
        b = b - 1;
    }
    proof {
        assert(spec_trim(piece) == s@.subrange(a as int, b as int));
    }
    s.substring_char(a, b).to_owned()
}

/// The pieces of `s` between occurrences of `sep`, in order; `s`
/// itself, as the one piece, when `sep` does not occur.
pub open spec fn spec_split(s: Seq<char>, sep: char) -> Seq<Seq<char>>
    decreases s.len(),
{
    let i = spec_find_char(s, sep, 0);
    if 0 <= i < s.len() {
        seq![s.subrange(0, i)] + spec_split(s.subrange(i + 1, s.len() as int), sep)
    } else {
        seq![s]
    }
}

/// Splits the characters of `s` from `from` on at commas and trims
/// each piece of ASCII whitespace.
fn split_and_trim(s: &str, from: usize, s_len: usize) -> (r: Vec<String>)
    requires
        from <= s@.len(),
        s_len == s@.len(),
    ensures
        r.deep_view() == spec_split(s@.subrange(from as int, s@.len() as int), ',').map_values(
            |p: Seq<char>| spec_trim(p),
        ),
{
    let mut out: Vec<String> = Vec::new();
    let mut pos: usize = from;
    loop
        invariant
            from <= pos <= s@.len(),
            s_len == s@.len(),
            spec_split(s@.subrange(from as int, s@.len() as int), ',').map_values(
                |p: Seq<char>| spec_trim(p),
            ) == out.deep_view() + spec_split(
                s@.subrange(pos as int, s@.len() as int),
                ',',
            ).map_values(|p: Seq<char>| spec_trim(p)),
        decreases s@.len() - pos,
    {
        let ghost suffix = s@.subrange(pos as int, s@.len() as int);
        let ghost old_dv = out.deep_view();
        let e = find_char_from(s, ',', pos, s_len);
        proof {
            lemma_find_char(s@, ',', pos as int);
            lemma_find_char(suffix, ',', 0);
            lemma_find_char_shift(s@, ',', pos as int);
        }
        let piece = trim_range(s, pos, e, s_len);
        out.push(piece);
        proof {
            let i = spec_find_char(suffix, ',', 0);
            assert(suffix.subrange(0, i) =~= s@.subrange(pos as int, e as int));
            assert(out.deep_view() =~~= old_dv.push(spec_trim(s@.subrange(
                pos as int,
                e as int,
            ))));
            if 0 <= i < suffix.len() {
                assert(suffix.subrange(i + 1, suffix.len() as int) =~= s@.subrange(
                    e as int + 1,
                    s@.len() as int,
                ));
                assert(spec_split(suffix, ',').map_values(|p: Seq<char>| spec_trim(p))
                    =~= seq![spec_trim(suffix.subrange(0, i))] + spec_split(
                    suffix.subrange(i + 1, suffix.len() as int),
                    ',',
                ).map_values(|p: Seq<char>| spec_trim(p)));
            } else {
                assert(spec_split(suffix, ',').map_values(|p: Seq<char>| spec_trim(p))
                    =~= seq![spec_trim(suffix)]);
            }
            assert(old_dv.push(spec_trim(s@.subrange(pos as int, e as int))) + spec_split(
                s@.subrange(e as int + 1, s@.len() as int),
                ',',
            ).map_values(|p: Seq<char>| spec_trim(p)) =~~= old_dv + (seq![
                spec_trim(s@.subrange(pos as int, e as int)),
            ] + spec_split(s@.subrange(e as int + 1, s@.len() as int), ',').map_values(
                |p: Seq<char>| spec_trim(p),
            )));
        }
        if e < s_len {
            pos = e + 1;
        } else {
            proof {
                assert(out.deep_view() =~~= old_dv + seq![spec_trim(suffix)]);
            }
            return out;
        }
    }
}

/// Whether an argument is a long key, written with two leading dashes.
pub open spec fn spec_is_long(a: Seq<char>) -> bool {
    a.len() >= 2 && a[0] == '-' && a[1] == '-'
}

/// One token parsed at position `i` of the argument list, and the
/// position of the next token.  `--name=values` carries its values
/// inline; a long key followed by another argument consumes it as its
/// one value; a final long key stands alone; a dash-prefixed token is
/// a short key; any other token is kept whole.
pub open spec fn spec_parse_one(args: Seq<Seq<char>>, i: int) -> (ArgKeyModel, int)
    recommends
        0 <= i < args.len(),
{
    let a = args[i];
    if spec_is_long(a) {
        let body = a.subrange(2, a.len() as int);
        let e = spec_find_char(body, '=', 0);
        if 0 <= e < body.len() {
            (
                ArgKeyModel::LongWithArgs(
                    body.subrange(0, e),
                    spec_split(body.subrange(e + 1, body.len() as int), ',').map_values(
                        |p: Seq<char>| spec_trim(p),
                    ),
                ),
                i + 1,
            )
        } else if i + 1 < args.len() {
            (ArgKeyModel::LongWithArgs(body, seq![args[i + 1]]), i + 2)
        } else {
            (ArgKeyModel::Long(body), i + 1)
        }
    } else if a.len() >= 1 && a[0] == '-' {
        (ArgKeyModel::Short(a.subrange(1, a.len() as int)), i + 1)
    } else {
        (ArgKeyModel::Short(a), i + 1)
    }
}

/// Parses the token at position `i` of the argument list, returning
/// the key and the position of the next token.
pub fn parse_arg(args: &Vec<String>, i: usize) -> (r: (ArgKey, usize))
    requires
        i < args@.len(),
    ensures
        r.0@ == spec_parse_one(args.deep_view(), i as int).0,
        r.1 as int == spec_parse_one(args.deep_view(), i as int).1,
        i < r.1 <= args@.len(),
{
    let ghost dv = args.deep_view();
    let arg_count = args.len();
    let a = &args[i];
    proof {
        assert(dv[i as int] == a@);
    }
    let a_len = a.as_str().unicode_len();
    if a_len >= 2 && a.as_str().get_char(0) == '-' && a.as_str().get_char(1) == '-' {
        let body_str = a.as_str().substring_char(2, a_len);
        let body_len = a_len - 2;
        proof {
            assert(body_str@ == a@.subrange(2, a@.len() as int));
        }
        let e = find_char_from(body_str, '=', 0, body_len);
        if e < body_len {
            let name = body_str.substring_char(0, e).to_owned();
            let vals = split_and_trim(body_str, e + 1, body_len);
            (ArgKey::LongWithArgs((name, vals)), i + 1)
        } else if i + 1 < args.len() {
            let mut vs: Vec<String> = Vec::new();
            vs.push(args[i + 1].clone());
            proof {
                assert(vs.deep_view() =~~= seq![dv[i as int + 1]]);
            }
            (ArgKey::LongWithArgs((body_str.to_owned(), vs)), i + 2)
        } else {
            (ArgKey::Long(body_str.to_owned()), i + 1)
        }
    } else if a_len >= 1 && a.as_str().get_char(0) == '-' {
        (ArgKey::Short(a.as_str().substring_char(1, a_len).to_owned()), i + 1)
    } else {
        (ArgKey::Short(a.clone()), i + 1)
    }
}

/// The states of the argument walk: the first plain token is the
/// pattern, the second the root path, everything after that a flag.
#[derive(Clone, Copy, PartialEq, Eq, Structural, Debug)]
pub enum ParseState {
    Pattern,
    Path,
    Options,
}

/// The view of a gathered optional string.
pub open spec fn spec_opt_view(o: Option<String>) -> Option<Seq<char>> {
    match o {
        Some(s) => Some(s@),
        None => None,
    }
}

/// What walking the argument list from position `i` onward, in the
/// given state and with what was gathered so far, leaves as the
/// pattern, the path, and the flags.
pub open spec fn spec_parse_flags_from(
    args: Seq<Seq<char>>,
    i: int,
    state: ParseState,
    pattern: Option<Seq<char>>,
    path: Option<Seq<char>>,
    flags: Seq<ArgKeyModel>,
) -> (Option<Seq<char>>, Option<Seq<char>>, Seq<ArgKeyModel>)
    decreases args.len() - i,
{
    if i < 0 || i >= args.len() {
        (pattern, path, flags)
    } else {
        let key = spec_parse_one(args, i).0;
        let next = spec_parse_one(args, i).1;
        match state {
            ParseState::Pattern => match key {
                ArgKeyModel::Short(s) => spec_parse_flags_from(
                    args,
                    next,
                    ParseState::Path,
                    Some(s),
                    path,
                    flags,
                ),
                ArgKeyModel::Long(s) => spec_parse_flags_from(
                    args,
                    next,
                    ParseState::Path,
                    Some(s),
                    path,
                    flags,
                ),
                ArgKeyModel::LongWithArgs(_, _) => spec_parse_flags_from(
                    args,
                    next,
                    ParseState::Pattern,
                    pattern,
                    path,
                    flags.push(key),
                ),
            },
            ParseState::Path => match key {
                ArgKeyModel::Short(s) => spec_parse_flags_from(
                    args,
                    next,
                    ParseState::Options,
                    pattern,
                    Some(s),
                    flags,
                ),
                ArgKeyModel::Long(s) => spec_parse_flags_from(
                    args,
                    next,
                    ParseState::Options,
                    pattern,
                    Some(s),
                    flags,
                ),
                ArgKeyModel::LongWithArgs(_, _) => spec_parse_flags_from(
                    args,
                    next,
                    ParseState::Options,
                    pattern,
                    path,
                    flags.push(key),
                ),
            },
            ParseState::Options => spec_parse_flags_from(
                args,
                next,
                ParseState::Options,
                pattern,
                path,
                flags.push(key),
            ),
        }
    }
}

/// Walks the whole argument list, skipping the program name in front:
/// the pattern, the root path, and the flags it holds.
pub fn parse_flags(args: &Vec<String>) -> (r: (Option<String>, Option<String>, Vec<ArgKey>))
    ensures
        spec_opt_view(r.0) == spec_parse_flags_from(
            args.deep_view(),
            1,
            ParseState::Pattern,
            None,
            None,
            Seq::empty(),
        ).0,
        spec_opt_view(r.1) == spec_parse_flags_from(
            args.deep_view(),
            1,
            ParseState::Pattern,
            None,
            None,
            Seq::empty(),
        ).1,
        spec_key_views(r.2@) == spec_parse_flags_from(
            args.deep_view(),
            1,
            ParseState::Pattern,
            None,
            None,
            Seq::empty(),
        ).2,
{
    let ghost dv = args.deep_view();
    let mut state = ParseState::Pattern;
    let mut pattern: Option<String> = None;
    let mut path: Option<String> = None;
    let mut flags: Vec<ArgKey> = Vec::new();
    let mut i: usize = 1;
    proof {
        assert(spec_key_views(flags@) =~= Seq::<ArgKeyModel>::empty());
    }
    while i < args.len()
        invariant
            dv == args.deep_view(),
            1 <= i <= dv.len() || i == 1,
            spec_parse_flags_from(dv, 1, ParseState::Pattern, None, None, Seq::empty())
                == spec_parse_flags_from(
                dv,
                i as int,
                state,
                spec_opt_view(pattern),
                spec_opt_view(path),
                spec_key_views(flags@),
            ),
        decreases dv.len() - i,
    {
        let ghost old_flag_views = spec_key_views(flags@);
        let (key, next) = parse_arg(args, i);
        let ghost key_view = key@;
        match state {
            ParseState::Pattern => match key {
                ArgKey::Short(s) => {
                    pattern = Some(s);
                    state = ParseState::Path;
                },
                ArgKey::Long(s) => {
                    pattern = Some(s);
                    state = ParseState::Path;
                },
                ArgKey::LongWithArgs(pair) => {
                    flags.push(ArgKey::LongWithArgs(pair));
                },
            },
            ParseState::Path => match key {
                ArgKey::Short(s) => {
                    path = Some(s);
                    state = ParseState::Options;
                },
                ArgKey::Long(s) => {
                    path = Some(s);
                    state = ParseState::Options;
                },
                ArgKey::LongWithArgs(pair) => {
                    flags.push(ArgKey::LongWithArgs(pair));
                    state = ParseState::Options;
                },
            },
            ParseState::Options => {
                flags.push(key);
            },
        }
        proof {
            assert(spec_key_views(flags@) =~= old_flag_views || spec_key_views(flags@)
                =~= old_flag_views.push(key_view));
        }
        i = next;
    }
    (pattern, path, flags)
}

/// The first occurrence in a suffix, located within the whole string.
proof fn lemma_find_char_shift(s: Seq<char>, c: char, start: int)
    requires
        0 <= start <= s.len(),
    ensures
        spec_find_char(s.subrange(start, s.len() as int), c, 0) == spec_find_char(s, c, start)
            - start,
    decreases s.len() - start,
{
    lemma_find_char_shift_from(s, c, start, 0);
}

proof fn lemma_find_char_shift_from(s: Seq<char>, c: char, start: int, from: int)
    requires
        0 <= start <= s.len(),
        0 <= from <= s.len() - start,
    ensures
        spec_find_char(s.subrange(start, s.len() as int), c, from) == spec_find_char(
            s,
            c,
            start + from,
        ) - start,
    decreases s.len() - start - from,
{
    let suffix = s.subrange(start, s.len() as int);
    if from < suffix.len() {
        assert(suffix[from] == s[start + from]);
        if suffix[from] != c {
            lemma_find_char_shift_from(s, c, start, from + 1);
        }
    }
}

} // verus!
