//! Patterns: an exact substring or a compiled regular expression.
//!
//! A pattern is compiled once per search and then shared, read-only, by
//! every per-file search.  Substring matching, with optional ASCII case
//! folding, is implemented and verified here; regular-expression
//! matching is delegated to the `regex` crate behind trusted wrappers
//! whose results are named, never restated.

use crate::color::{color_wrap, spec_colorized, Color};
use vstd::prelude::*;

verus! {

#[verifier::external_type_specification]
#[verifier::external_body]
pub struct ExBytesRegex(regex::bytes::Regex);

#[verifier::external_type_specification]
#[verifier::external_body]
pub struct ExRegexError(regex::Error);

/// Whether the regular expression written `src`, compiled with the
/// case-insensitivity flag `ci`, matches somewhere in `line`.  The
/// regex engine decides; the result is a function of these three values
/// alone.
pub uninterp spec fn regex_match(src: Seq<char>, ci: bool, line: Seq<u8>) -> bool;

/// `line` with every span matched by the regular expression written
/// `src` (compiled with flag `ci`) wrapped in the escapes that color it
/// red.  The regex engine decides; the result is a function of these
/// three values alone.
pub uninterp spec fn regex_highlight(src: Seq<char>, ci: bool, line: Seq<u8>) -> Seq<u8>;

/// Whether the text `src` is a valid regular expression, as the regex
/// compiler judges it under flag `ci` and otherwise default settings.
/// The compiler decides; the answer is a function of these two values
/// alone.
pub uninterp spec fn spec_regex_valid(src: Seq<char>, ci: bool) -> bool;

/// A compiled regular expression kept beside the text it was compiled
/// from.  The fields are private: `compile_regex` is the only place a
/// value is built, so `re` always comes from exactly `src` and `ci`.
pub struct CompiledRegex {
    re: regex::bytes::Regex,
    src: String,
    ci: bool,
}

impl CompiledRegex {
    /// The text the expression was compiled from.
    pub closed spec fn spec_src(&self) -> Seq<char> {
        self.src@
    }

    /// Whether the expression was compiled case-insensitively.
    pub closed spec fn spec_ci(&self) -> bool {
        self.ci
    }
}

/// Relies on regex::bytes::RegexBuilder: `new`, `case_insensitive` and
/// `build`, which returns `Ok` exactly when the text is a valid
/// pattern — the validity named `spec_regex_valid`.  The compiled
/// expression is stored beside the text and flag it was built from.
#[verifier::external_body]
fn compile_regex(src: String, ci: bool) -> (r: Result<CompiledRegex, regex::Error>)
    ensures
        r is Ok <==> spec_regex_valid(src@, ci),
        r matches Ok(c) ==> c.spec_src() == src@ && c.spec_ci() == ci,
{
    let mut builder = regex::bytes::RegexBuilder::new(src.as_str());
    builder.case_insensitive(ci);
    match builder.build() {
        Ok(re) => Ok(CompiledRegex { re, src, ci }),
        Err(e) => Err(e),
    }
}

/// Relies on regex::bytes::Regex::is_match, whose result depends only
/// on the pattern the expression was compiled from, its case flag, and
/// the haystack.
#[verifier::external_body]
fn compiled_is_match(c: &CompiledRegex, line: &[u8]) -> (r: bool)
    ensures
        r == regex_match(c.spec_src(), c.spec_ci(), line@),
{
    c.re.is_match(line)
}

/// Relies on regex::bytes::Regex::replace_all: every non-overlapping
/// match is replaced by what the closure returns for it, here the
/// matched span wrapped in red.  The result depends only on the pattern
/// text, its case flag, and the haystack.
#[verifier::external_body]
fn compiled_highlight(c: &CompiledRegex, line: &[u8]) -> (r: Vec<u8>)
    ensures
        r@ == regex_highlight(c.spec_src(), c.spec_ci(), line@),
{
    c.re.replace_all(line, |caps: &regex::bytes::Captures| color_wrap(&caps[0], Color::Red))
        .into_owned()
}

/// Relies on regex::bytes::Regex::clone and String::clone: the clone is
/// a compiled form of the same pattern text and flag.
#[verifier::external_body]
fn compiled_clone(c: &CompiledRegex) -> (r: CompiledRegex)
    ensures
        r.spec_src() == c.spec_src(),
        r.spec_ci() == c.spec_ci(),
{
    CompiledRegex { re: c.re.clone(), src: c.src.clone(), ci: c.ci }
}

/// Why a pattern was rejected.
#[derive(Clone, Copy, PartialEq, Eq, Structural, Debug)]
pub enum PatternError {
    InvalidRegex,
}

/// What a pattern is made of, as contracts see it.
pub ghost enum PatternModel {
    Substring { needle: Seq<u8>, ci: bool },
    Regex { src: Seq<char>, ci: bool },
}

/// A search pattern: an exact byte substring, or a compiled regular
/// expression.
pub enum Pattern {
    Substring(Vec<u8>, bool),
    Regex(CompiledRegex),
}

impl View for Pattern {
    type V = PatternModel;

    open spec fn view(&self) -> PatternModel {
        match self {
            Pattern::Substring(needle, ci) => PatternModel::Substring {
                needle: needle@,
                ci: *ci,
            },
            Pattern::Regex(c) => PatternModel::Regex { src: c.spec_src(), ci: c.spec_ci() },
        }
    }
}

/// ASCII case folding of one byte: an upper-case letter becomes its
/// lower-case form, every other byte stays itself.
pub open spec fn spec_fold_byte(b: u8) -> u8 {
    if 65 <= b <= 90 {
        (b + 32) as u8
    } else {
        b
    }
}

/// ASCII case folding of a byte string.
pub open spec fn spec_fold(s: Seq<u8>) -> Seq<u8> {
    s.map_values(|b: u8| spec_fold_byte(b))
}

/// A byte string as matching sees it: case-folded when the pattern is
/// case-insensitive, itself otherwise.
pub open spec fn spec_effective(s: Seq<u8>, ci: bool) -> Seq<u8> {
    if ci {
        spec_fold(s)
    } else {
        s
    }
}

fn fold_byte(b: u8, ci: bool) -> (r: u8)
    ensures
        ci ==> r == spec_fold_byte(b),
        !ci ==> r == b,
{
    if ci && b >= 65 && b <= 90 {
        b + 32
    } else {
        b
    }
}

/// Whether `needle` occurs in `hay` starting at `i`.
pub open spec fn spec_match_at(hay: Seq<u8>, needle: Seq<u8>, i: int) -> bool {
    0 <= i && i + needle.len() <= hay.len() && hay.subrange(i, i + needle.len()) == needle
}

/// Whether `needle` occurs anywhere in `hay`.
pub open spec fn spec_contains(hay: Seq<u8>, needle: Seq<u8>) -> bool {
    exists|i: int| spec_match_at(hay, needle, i)
}

/// The first index at or after `from` at which `needle` occurs in
/// `hay`, if any.
pub open spec fn spec_find_at(hay: Seq<u8>, needle: Seq<u8>, from: int) -> Option<int>
    decreases hay.len() + 1 - from,
{
    if from < 0 || from + needle.len() > hay.len() {
        None
    } else if hay.subrange(from, from + needle.len()) == needle {
        Some(from)
    } else {
        spec_find_at(hay, needle, from + 1)
    }
}

pub proof fn lemma_find_at(hay: Seq<u8>, needle: Seq<u8>, from: int)
    requires
        0 <= from,
    ensures
        spec_find_at(hay, needle, from) matches Some(i) ==> from <= i && spec_match_at(
            hay,
            needle,
            i,
        ) && forall|j: int| from <= j < i ==> !spec_match_at(hay, needle, j),
        spec_find_at(hay, needle, from) is None ==> forall|j: int|
            j >= from ==> !spec_match_at(hay, needle, j),
    decreases hay.len() + 1 - from,
{
    if from + needle.len() > hay.len() {
        assert forall|j: int| j >= from implies !spec_match_at(hay, needle, j) by {}
    } else if hay.subrange(from, from + needle.len()) == needle {
    } else {
        lemma_find_at(hay, needle, from + 1);
        assert(!spec_match_at(hay, needle, from));
    }
}

/// Checks whether the (possibly case-folded) needle occurs at index `i`
/// of the (possibly case-folded) haystack.
fn match_at(hay: &[u8], needle: &[u8], i: usize, ci: bool) -> (r: bool)
    requires
        i + needle@.len() <= hay@.len(),
    ensures
        r == spec_match_at(spec_effective(hay@, ci), spec_effective(needle@, ci), i as int),
{
    let ghost eh = spec_effective(hay@, ci);
    let ghost en = spec_effective(needle@, ci);
    let hay_len = hay.len();
    let mut k: usize = 0;
    while k < needle.len()
        invariant
            0 <= k <= needle@.len(),
            hay_len == hay@.len(),
            i + needle@.len() <= hay@.len(),
            eh == spec_effective(hay@, ci),
            en == spec_effective(needle@, ci),
            forall|j: int| 0 <= j < k ==> eh[i + j] == en[j],
        decreases needle@.len() - k,
    {
        if fold_byte(hay[i + k], ci) != fold_byte(needle[k], ci) {
            proof {
                assert(eh[i + k] != en[k as int]);
                assert(eh.subrange(i as int, i + en.len()) != en) by {
                    assert(eh.subrange(i as int, i + en.len())[k as int] != en[k as int]);
                }
            }
            return false;
        }
        k = k + 1;
    }
    proof {
        assert(eh.subrange(i as int, i + en.len()) =~= en);
    }
    true
}

/// Finds the first occurrence of the needle in the haystack, folding
/// case when asked to.
fn find_needle(hay: &[u8], needle: &[u8], ci: bool) -> (r: Option<usize>)
    ensures
        match r {
            Some(i) => Some(i as int) == spec_find_at(
                spec_effective(hay@, ci),
                spec_effective(needle@, ci),
                0,
            ),
            None => spec_find_at(spec_effective(hay@, ci), spec_effective(needle@, ci), 0)
                is None,
        },
{
    let ghost eh = spec_effective(hay@, ci);
    let ghost en = spec_effective(needle@, ci);
    if needle.len() > hay.len() {
        return None;
    }
    if needle.len() == 0 {
        proof {
            assert(eh.subrange(0, 0) =~= en);
        }
        return Some(0);
    }
    let hay_len = hay.len();
    let end = hay_len - needle.len();
    let mut i: usize = 0;
    while i <= end
        invariant
            hay_len == hay@.len(),
            1 <= needle@.len() <= hay@.len(),
            end == hay@.len() - needle@.len(),
            0 <= i <= end + 1,
            eh == spec_effective(hay@, ci),
            en == spec_effective(needle@, ci),
            spec_find_at(eh, en, 0) == spec_find_at(eh, en, i as int),
        decreases hay@.len() - i,
    {
        if match_at(hay, needle, i, ci) {
            return Some(i);
        }
        i = i + 1;
    }
    None
}

/// Whether a pattern matches a line.
pub open spec fn spec_pattern_matches(p: PatternModel, line: Seq<u8>) -> bool {
    match p {
        PatternModel::Substring { needle, ci } => spec_contains(
            spec_effective(line, ci),
            spec_effective(needle, ci),
        ),
        PatternModel::Regex { src, ci } => regex_match(src, ci, line),
    }
}

/// A matching line with its matched span marked: a substring pattern
/// wraps the first occurrence in red, a regular expression wraps every
/// matched span.
pub open spec fn spec_pattern_highlight(p: PatternModel, line: Seq<u8>) -> Seq<u8> {
    match p {
        PatternModel::Substring { needle, ci } => {
            let i = spec_find_at(
                spec_effective(line, ci),
                spec_effective(needle, ci),
                0,
            )->Some_0;
            line.subrange(0, i) + spec_colorized(line.subrange(i, i + needle.len()), Color::Red)
                + line.subrange(i + needle.len(), line.len() as int)
        },
        PatternModel::Regex { src, ci } => regex_highlight(src, ci, line),
    }
}

impl Pattern {
    /// An exact-substring pattern.
    pub fn substring(needle: Vec<u8>, case_insensitive: bool) -> (r: Pattern)
        ensures
            r@ == (PatternModel::Substring { needle: needle@, ci: case_insensitive }),
    {
        Pattern::Substring(needle, case_insensitive)
    }

    /// Compiles a regular-expression pattern.  Compilation succeeds
    /// exactly when the text is valid; invalid syntax is reported as
    /// an error.
    pub fn regex(src: String, case_insensitive: bool) -> (r: Result<Pattern, PatternError>)
        ensures
            r is Ok <==> spec_regex_valid(src@, case_insensitive),
            r matches Ok(p) ==> p@ == (PatternModel::Regex { src: src@, ci: case_insensitive }),
            r matches Err(e) ==> e == PatternError::InvalidRegex,
    {
        match compile_regex(src, case_insensitive) {
            Ok(c) => Ok(Pattern::Regex(c)),
            Err(_) => Err(PatternError::InvalidRegex),
        }
    }

    /// Whether this pattern matches the line.
    pub fn is_match(&self, line: &[u8]) -> (r: bool)
        ensures
            r == spec_pattern_matches(self@, line@),
    {
        match self {
            Pattern::Substring(needle, ci) => {
                let found = find_needle(line, needle.as_slice(), *ci);
                proof {
                    lemma_find_at(spec_effective(line@, *ci), spec_effective(needle@, *ci), 0);
                }
                found.is_some()
            },
            Pattern::Regex(c) => compiled_is_match(c, line),
        }
    }

    /// The line with this pattern's matched span marked in red.
    pub fn highlight(&self, line: &[u8]) -> (r: Vec<u8>)
        requires
            spec_pattern_matches(self@, line@),
        ensures
            r@ == spec_pattern_highlight(self@, line@),
    {
        match self {
            Pattern::Substring(needle, ci) => {
                proof {
                    lemma_find_at(spec_effective(line@, *ci), spec_effective(needle@, *ci), 0);
                }
                let found = find_needle(line, needle.as_slice(), *ci);
                let i = match found {
                    Some(i) => i,
                    None => {
                        proof {
                            assert(false);
                        }
                        0
                    },
                };
                let line_len = line.len();
                proof {
                    assert(spec_effective(line@, *ci).len() == line@.len());
                    assert(spec_effective(needle@, *ci).len() == needle@.len());
                    assert(i + needle@.len() <= line@.len());
                }
                let mut out = vstd::slice::slice_to_vec(&line[0..i]);
                let mut middle = color_wrap(&line[i..i + needle.len()], Color::Red);
                out.append(&mut middle);
                let tail = &line[i + needle.len()..line_len];
                out.extend_from_slice(tail);
                proof {
                    assert(out@ =~= spec_pattern_highlight(self@, line@));
                }
                out
            },
            Pattern::Regex(c) => compiled_highlight(c, line),
        }
    }

    /// A copy that matches exactly as this pattern does.
    pub fn duplicate(&self) -> (r: Pattern)
        ensures
            r@ == self@,
    {
        match self {
            Pattern::Substring(needle, ci) => {
                let copy = needle.clone();
                proof {
                    assert(copy@ =~= needle@);
                }
                Pattern::Substring(copy, *ci)
            },
            Pattern::Regex(c) => Pattern::Regex(compiled_clone(c)),
        }
    }
}

} // verus!
