//! Turning the lines of a source into ordered match records.
//!
//! A chunk is matched line by line, in order; a whole source is matched
//! by processing its chunks in stream order while carrying the running
//! line count.  Because chunks are line-aligned, matching chunk by
//! chunk reports exactly what matching the undivided source would.

use crate::chunks::{
    count_lines, find_line_end, lemma_chunks_cover, lemma_chunks_line_aligned, lemma_concat_step,
    lemma_find_newline, lemma_lines_append, lemma_lines_count, read_chunks, spec_chunks,
    spec_concat, spec_find_newline, spec_lines, NEWLINE,
};
use crate::color::{color_wrap, format_decimal, spec_colorized, spec_decimal, Color};
use crate::pattern::{spec_pattern_highlight, spec_pattern_matches, Pattern, PatternModel};
use crate::CHUNK_SIZE;
use vstd::prelude::*;

verus! {

/// One reported line, as contracts see it: its 1-based line number in
/// the source and the bytes shown for it.
pub ghost struct MatchModel {
    pub line: int,
    pub content: Seq<u8>,
}

/// One reported line: under normal matching, a line the pattern
/// matches, with the matched span marked; under invert, a line the
/// pattern does not match, wrapped whole in red.  A record is a plain
/// value with no tie to the source it came from.
pub struct Match {
    pub content: Vec<u8>,
    pub line: usize,
}

impl View for Match {
    type V = MatchModel;

    open spec fn view(&self) -> MatchModel {
        MatchModel { line: self.line as int, content: self.content@ }
    }
}

/// The views of a sequence of records.
pub open spec fn spec_match_views(ms: Seq<Match>) -> Seq<MatchModel> {
    ms.map_values(|m: Match| m@)
}

/// The rendering of one record: the line number colored yellow, a
/// colon and a space, then the content.
pub open spec fn spec_render(m: MatchModel) -> Seq<u8> {
    spec_colorized(spec_decimal(m.line as nat), Color::Yellow) + seq![58u8, 32u8] + m.content
}

impl Match {
    /// A record for line `line` showing `content`.
    pub fn new(content: Vec<u8>, line: usize) -> (r: Match)
        ensures
            r@ == (MatchModel { line: line as int, content: content@ }),
    {
        Match { content, line }
    }

    /// The line-number label of this record, colored yellow.
    pub fn location(&self) -> (r: Vec<u8>)
        ensures
            r@ == spec_colorized(spec_decimal(self.line as nat), Color::Yellow),
    {
        let digits = format_decimal(self.line);
        color_wrap(digits.as_slice(), Color::Yellow)
    }

    /// The full rendering of this record, `location: content`.
    pub fn render(&self) -> (r: Vec<u8>)
        ensures
            r@ == spec_render(self@),
    {
        let mut out = self.location();
        out.push(58u8);
        out.push(32u8);
        out.extend_from_slice(self.content.as_slice());
        proof {
            assert(out@ =~= spec_render(self@));
        }
        out
    }
}

/// What is shown for one reported line: the line wrapped whole in red
/// under invert, the matched span marked otherwise.
pub open spec fn spec_line_content(p: PatternModel, line: Seq<u8>, invert: bool) -> Seq<u8> {
    if invert {
        spec_colorized(line, Color::Red)
    } else {
        spec_pattern_highlight(p, line)
    }
}

/// The records for a sequence of lines numbered from `base + 1`: one
/// per line whose match test disagrees with `invert`, in line order.
pub open spec fn spec_matches(
    p: PatternModel,
    lines: Seq<Seq<u8>>,
    invert: bool,
    base: int,
) -> Seq<MatchModel>
    decreases lines.len(),
{
    if lines.len() == 0 {
        Seq::empty()
    } else {
        let rest = spec_matches(p, lines.subrange(1, lines.len() as int), invert, base + 1);
        if spec_pattern_matches(p, lines[0]) != invert {
            seq![
                MatchModel { line: base + 1, content: spec_line_content(p, lines[0], invert) },
            ] + rest
        } else {
            rest
        }
    }
}

/// The records of appended line sequences are the records of each part,
/// the second numbered past the first.
pub proof fn lemma_matches_append(
    p: PatternModel,
    l1: Seq<Seq<u8>>,
    l2: Seq<Seq<u8>>,
    invert: bool,
    base: int,
)
    ensures
        spec_matches(p, l1 + l2, invert, base) == spec_matches(p, l1, invert, base)
            + spec_matches(p, l2, invert, base + l1.len()),
    decreases l1.len(),
{
    if l1.len() == 0 {
        assert(l1 + l2 =~= l2);
        assert(spec_matches(p, l1, invert, base) + spec_matches(p, l2, invert, base + l1.len())
            =~= spec_matches(p, l2, invert, base));
    } else {
        lemma_matches_append(p, l1.subrange(1, l1.len() as int), l2, invert, base + 1);
        assert((l1 + l2)[0] == l1[0]);
        assert((l1 + l2).subrange(1, (l1 + l2).len() as int) =~= l1.subrange(1, l1.len() as int)
            + l2);
        assert(spec_matches(p, l1 + l2, invert, base) =~= spec_matches(p, l1, invert, base)
            + spec_matches(p, l2, invert, base + l1.len()));
    }
}

/// Applies the pattern to every line of a chunk, producing one record
/// per reported line.  Lines are numbered from `base + 1`, `base` being
/// the count of lines already consumed upstream, so the numbers in the
/// final report are absolute.
pub fn process_chunk(pattern: &Pattern, chunk: &[u8], invert: bool, base: usize) -> (r: Vec<
    Match,
>)
    requires
        base + chunk@.len() <= usize::MAX,
    ensures
        spec_match_views(r@) == spec_matches(pattern@, spec_lines(chunk@), invert, base as int),
{
    let mut out: Vec<Match> = Vec::new();
    let mut pos: usize = 0;
    let mut count: usize = 0;
    let chunk_len = chunk.len();
    proof {
        assert(chunk@.subrange(0, chunk@.len() as int) =~= chunk@);
        assert(spec_match_views(out@) =~= Seq::<MatchModel>::empty());
        assert(Seq::<MatchModel>::empty() + spec_matches(
            pattern@,
            spec_lines(chunk@),
            invert,
            base as int,
        ) =~= spec_matches(pattern@, spec_lines(chunk@), invert, base as int));
    }
    while pos < chunk_len
        invariant
            chunk_len == chunk@.len(),
            count <= pos <= chunk@.len(),
            base + chunk@.len() <= usize::MAX,
            count + spec_lines(chunk@.subrange(pos as int, chunk@.len() as int)).len()
                == spec_lines(chunk@).len(),
            spec_matches(pattern@, spec_lines(chunk@), invert, base as int) == spec_match_views(
                out@,
            ) + spec_matches(
                pattern@,
                spec_lines(chunk@.subrange(pos as int, chunk@.len() as int)),
                invert,
                base + count,
            ),
        decreases chunk@.len() - pos,
    {
        let ghost suffix = chunk@.subrange(pos as int, chunk@.len() as int);
        let ghost old_views = spec_match_views(out@);
        let line_end = find_line_end(chunk, pos);
        let next = if line_end < chunk_len {
            line_end + 1
        } else {
            line_end
        };
        let line = &chunk[pos..line_end];
        proof {
            lemma_find_newline(suffix, 0);
            let n = spec_find_newline(suffix, 0);
            assert(line@ =~= suffix.subrange(0, n));
            if 0 <= n < suffix.len() {
                assert(line@ =~= suffix.subrange(0, n));
                assert(suffix.subrange(n + 1, suffix.len() as int) =~= chunk@.subrange(
                    next as int,
                    chunk@.len() as int,
                ));
                assert(spec_lines(suffix) == seq![line@] + spec_lines(chunk@.subrange(
                    next as int,
                    chunk@.len() as int,
                )));
            } else {
                assert(next == chunk@.len());
                assert(line@ =~= suffix);
                assert(chunk@.subrange(next as int, chunk@.len() as int).len() == 0);
                assert(spec_lines(chunk@.subrange(next as int, chunk@.len() as int))
                    =~= Seq::<Seq<u8>>::empty());
                assert(spec_lines(suffix) == seq![line@] + spec_lines(chunk@.subrange(
                    next as int,
                    chunk@.len() as int,
                )));
            }
            assert(spec_lines(suffix).subrange(1, spec_lines(suffix).len() as int)
                =~= spec_lines(chunk@.subrange(next as int, chunk@.len() as int)));
        }
        let matched = pattern.is_match(line);
        if matched != invert {
            let content = if invert {
                color_wrap(line, Color::Red)
            } else {
                pattern.highlight(line)
            };
            let record = Match::new(content, base + count + 1);
            out.push(record);
            proof {
                assert(spec_match_views(out@) =~= old_views.push(
                    MatchModel {
                        line: base + count + 1,
                        content: spec_line_content(pattern@, line@, invert),
                    },
                ));
            }
        }
        proof {
            let rest_lines = spec_lines(chunk@.subrange(next as int, chunk@.len() as int));
            assert(spec_matches(pattern@, spec_lines(suffix), invert, base + count)
                == (if spec_pattern_matches(pattern@, line@) != invert {
                    seq![
                        MatchModel {
                            line: base + count + 1,
                            content: spec_line_content(pattern@, line@, invert),
                        },
                    ] + spec_matches(pattern@, rest_lines, invert, base + count + 1)
                } else {
                    spec_matches(pattern@, rest_lines, invert, base + count + 1)
                }));
            assert(spec_match_views(out@) + spec_matches(
                pattern@,
                rest_lines,
                invert,
                base + count + 1,
            ) =~= old_views + spec_matches(pattern@, spec_lines(suffix), invert, base + count));
        }
        count = count + 1;
        pos = next;
    }
    proof {
        assert(chunk@.subrange(pos as int, chunk@.len() as int).len() == 0);
        assert(spec_lines(chunk@.subrange(pos as int, chunk@.len() as int))
            =~= Seq::<Seq<u8>>::empty());
        assert(spec_match_views(out@) + Seq::<MatchModel>::empty() =~= spec_match_views(out@));
    }
    out
}

/// Searches a whole source held in memory: splits it into line-aligned
/// chunks and matches them in stream order, carrying the running line
/// count.  The report is exactly what matching the undivided source
/// line by line would give, in strictly ascending line order.
pub fn get_matches(pattern: &Pattern, content: &[u8], invert: bool) -> (r: Vec<Match>)
    ensures
        spec_match_views(r@) == spec_matches(pattern@, spec_lines(content@), invert, 0),
{
    let chunks = read_chunks(content, CHUNK_SIZE);
    let content_len = content.len();
    let mut out: Vec<Match> = Vec::new();
    let mut base: usize = 0;
    let mut k: usize = 0;
    let ghost cs = chunks.deep_view();
    proof {
        lemma_chunks_cover(content@, CHUNK_SIZE as nat);
        lemma_chunks_line_aligned(content@, CHUNK_SIZE as nat);
        assert(cs.subrange(0, 0) =~= Seq::<Seq<u8>>::empty());
        assert(spec_concat(Seq::<Seq<u8>>::empty()) == Seq::<u8>::empty());
        assert(spec_lines(Seq::<u8>::empty()) =~= Seq::<Seq<u8>>::empty());
        assert(spec_match_views(out@) =~= spec_matches(
            pattern@,
            spec_lines(spec_concat(cs.subrange(0, 0))),
            invert,
            0,
        ));
    }
    while k < chunks.len()
        invariant
            cs == chunks.deep_view(),
            cs == spec_chunks(content@, CHUNK_SIZE as nat),
            spec_concat(cs) == content@,
            content_len == content@.len(),
            forall|j: int| 0 <= j < cs.len() ==> (#[trigger] cs[j]).len() > 0,
            forall|j: int| 0 <= j < cs.len() - 1 ==> (#[trigger] cs[j]).last() == NEWLINE,
            0 <= k <= cs.len(),
            base == spec_lines(spec_concat(cs.subrange(0, k as int))).len(),
            base <= spec_concat(cs.subrange(0, k as int)).len() <= content@.len(),
            spec_match_views(out@) == spec_matches(
                pattern@,
                spec_lines(spec_concat(cs.subrange(0, k as int))),
                invert,
                0,
            ),
        decreases cs.len() - k,
    {
        let ghost consumed = spec_concat(cs.subrange(0, k as int));
        let chunk = &chunks[k];
        proof {
            assert(chunk@ =~= cs[k as int]);
            lemma_concat_step(cs, k as int);
            assert(spec_concat(cs.subrange(0, k as int + 1)) == consumed + cs[k as int]);
            lemma_concat_prefix_len(cs, k as int + 1);
            lemma_lines_count(cs[k as int]);
        }
        let lines_here = count_lines(chunk.as_slice());
        let mut records = process_chunk(pattern, chunk.as_slice(), invert, base);
        proof {
            if k == 0 {
                assert(consumed.len() == 0);
                assert(consumed + cs[k as int] =~= cs[k as int]);
                assert(spec_lines(consumed) =~= Seq::<Seq<u8>>::empty());
                lemma_matches_append(
                    pattern@,
                    spec_lines(consumed),
                    spec_lines(cs[k as int]),
                    invert,
                    0,
                );
                assert(spec_lines(consumed) + spec_lines(cs[k as int]) =~= spec_lines(
                    cs[k as int],
                ));
                assert(spec_lines(consumed + cs[k as int]) == spec_lines(consumed) + spec_lines(
                    cs[k as int],
                ));
            } else {
                assert(consumed.len() > 0 && consumed.last() == NEWLINE) by {
                    lemma_concat_step(cs, k as int - 1);
                    assert(consumed == spec_concat(cs.subrange(0, k as int - 1)) + cs[k as int
                        - 1]);
                    assert(cs[k as int - 1].len() > 0);
                    assert(consumed.last() == cs[k as int - 1].last());
                }
                lemma_lines_append(consumed, cs[k as int]);
                lemma_matches_append(
                    pattern@,
                    spec_lines(consumed),
                    spec_lines(cs[k as int]),
                    invert,
                    0,
                );
            }
            assert(spec_matches(pattern@, spec_lines(consumed + cs[k as int]), invert, 0)
                == spec_matches(pattern@, spec_lines(consumed), invert, 0) + spec_matches(
                pattern@,
                spec_lines(cs[k as int]),
                invert,
                base as int,
            ));
        }
        let ghost old_views = spec_match_views(out@);
        let ghost new_views = spec_match_views(records@);
        out.append(&mut records);
        base = base + lines_here;
        k = k + 1;
        proof {
            assert(spec_match_views(out@) =~= old_views + new_views);
            lemma_lines_count(spec_concat(cs.subrange(0, k as int)));
            assert(spec_lines(spec_concat(cs.subrange(0, k as int))).len() == base);
        }
    }
    proof {
        assert(cs.subrange(0, k as int) =~= cs);
    }
    out
}

/// Ordering invariant: the records for a sequence of lines numbered
/// from `base + 1` carry strictly increasing line numbers, all within
/// the numbered range.
pub proof fn lemma_matches_ordered(
    p: PatternModel,
    lines: Seq<Seq<u8>>,
    invert: bool,
    base: int,
)
    ensures
        forall|i: int|
            0 <= i < spec_matches(p, lines, invert, base).len() ==> base < (
            #[trigger] spec_matches(p, lines, invert, base)[i]).line <= base + lines.len(),
        forall|i: int, j: int|
            0 <= i < j < spec_matches(p, lines, invert, base).len() ==> (#[trigger] spec_matches(
                p,
                lines,
                invert,
                base,
            )[i]).line < (#[trigger] spec_matches(p, lines, invert, base)[j]).line,
    decreases lines.len(),
{
    if lines.len() > 0 {
        lemma_matches_ordered(p, lines.subrange(1, lines.len() as int), invert, base + 1);
        let rest = spec_matches(p, lines.subrange(1, lines.len() as int), invert, base + 1);
        let ms = spec_matches(p, lines, invert, base);
        if spec_pattern_matches(p, lines[0]) != invert {
            assert(forall|i: int| 1 <= i < ms.len() ==> #[trigger] ms[i] == rest[i - 1]);
        }
    }
}

/// The set of line numbers among a sequence of records.
pub open spec fn spec_line_numbers(ms: Seq<MatchModel>) -> Set<int> {
    Set::new(|n: int| exists|i: int| 0 <= i < ms.len() && (#[trigger] ms[i]).line == n)
}

/// A line number is reported exactly when it is in range and its
/// line's match test disagrees with `invert`.
pub proof fn lemma_matches_line_numbers(
    p: PatternModel,
    lines: Seq<Seq<u8>>,
    invert: bool,
    base: int,
    n: int,
)
    ensures
        spec_line_numbers(spec_matches(p, lines, invert, base)).contains(n) <==> (base < n <= base
            + lines.len() && spec_pattern_matches(p, lines[n - base - 1]) != invert),
    decreases lines.len(),
{
    let ms = spec_matches(p, lines, invert, base);
    if lines.len() == 0 {
        assert(!spec_line_numbers(ms).contains(n));
    } else {
        lemma_matches_line_numbers(p, lines.subrange(1, lines.len() as int), invert, base + 1, n);
        let sub = lines.subrange(1, lines.len() as int);
        let rest = spec_matches(p, sub, invert, base + 1);
        if base + 1 < n <= base + lines.len() {
            assert(sub[n - base - 2] == lines[n - base - 1]);
        }
        if spec_pattern_matches(p, lines[0]) != invert {
            let first = MatchModel { line: base + 1, content: spec_line_content(p, lines[0], invert) };
            assert(ms == seq![first] + rest);
            if spec_line_numbers(ms).contains(n) {
                let i = choose|i: int| 0 <= i < ms.len() && (#[trigger] ms[i]).line == n;
                if i == 0 {
                    assert(n == base + 1);
                } else {
                    assert(rest[i - 1].line == n);
                    assert(spec_line_numbers(rest).contains(n));
                }
            }
            if base < n <= base + lines.len() && spec_pattern_matches(p, lines[n - base - 1])
                != invert {
                if n == base + 1 {
                    assert(ms[0].line == n);
                    assert(spec_line_numbers(ms).contains(n));
                } else {
                    assert(spec_line_numbers(rest).contains(n));
                    let j = choose|j: int| 0 <= j < rest.len() && (#[trigger] rest[j]).line == n;
                    assert(ms[j + 1].line == n);
                    assert(spec_line_numbers(ms).contains(n));
                }
            }
        } else {
            assert(ms == rest);
            if n == base + 1 {
                assert(!(base + 1 < n));
                assert(!spec_line_numbers(rest).contains(n));
            }
        }
    }
}

/// Invert duality: over one source's lines, the line numbers reported
/// with invert off and those reported with invert on are disjoint, and
/// together they are exactly the line numbers of the source.
pub proof fn lemma_invert_duality(p: PatternModel, lines: Seq<Seq<u8>>)
    ensures
        spec_line_numbers(spec_matches(p, lines, false, 0)).disjoint(
            spec_line_numbers(spec_matches(p, lines, true, 0)),
        ),
        spec_line_numbers(spec_matches(p, lines, false, 0)) + spec_line_numbers(
            spec_matches(p, lines, true, 0),
        ) =~= Set::new(|n: int| 1 <= n <= lines.len()),
{
    let normal = spec_line_numbers(spec_matches(p, lines, false, 0));
    let inverted = spec_line_numbers(spec_matches(p, lines, true, 0));
    assert forall|n: int| #[trigger] normal.contains(n) implies !inverted.contains(n) by {
        lemma_matches_line_numbers(p, lines, false, 0, n);
        lemma_matches_line_numbers(p, lines, true, 0, n);
    }
    assert forall|n: int| #[trigger] (normal + inverted).contains(n) <==> 1 <= n
        <= lines.len() by {
        lemma_matches_line_numbers(p, lines, false, 0, n);
        lemma_matches_line_numbers(p, lines, true, 0, n);
    }
    assert(normal + inverted =~= Set::new(|n: int| 1 <= n <= lines.len()));
}

/// A prefix of the chunks concatenates to no more than the whole.
proof fn lemma_concat_prefix_len(cs: Seq<Seq<u8>>, k: int)
    requires
        0 <= k <= cs.len(),
    ensures
        spec_concat(cs.subrange(0, k)).len() <= spec_concat(cs).len(),
    decreases cs.len() - k,
{
    if k < cs.len() {
        lemma_concat_step(cs, k);
        lemma_concat_prefix_len(cs, k + 1);
    } else {
        assert(cs.subrange(0, k) =~= cs);
    }
}

} // verus!
