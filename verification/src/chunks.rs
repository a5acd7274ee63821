//! Partitioning a byte stream into line-aligned chunks.
//!
//! A chunk is a contiguous slice of the source bytes that is cut only
//! immediately after a newline or at the end of the stream, so that no
//! line is ever split across two chunks.  A chunk is closed as soon as
//! it reaches the target size, which it therefore exceeds only when a
//! single line is longer than the target.

use vstd::prelude::*;

verus! {

/// The newline byte `\n`.
pub const NEWLINE: u8 = 10;

/// Index of the first newline in `s` at or after `from`; `s.len()` when
/// there is none.
pub open spec fn spec_find_newline(s: Seq<u8>, from: int) -> int
    decreases s.len() - from,
{
    if from < 0 || from >= s.len() {
        s.len() as int
    } else if s[from] == NEWLINE {
        from
    } else {
        spec_find_newline(s, from + 1)
    }
}

pub proof fn lemma_find_newline(s: Seq<u8>, from: int)
    requires
        0 <= from <= s.len(),
    ensures
        from <= spec_find_newline(s, from) <= s.len(),
        spec_find_newline(s, from) < s.len() ==> s[spec_find_newline(s, from)] == NEWLINE,
        forall|j: int| from <= j < spec_find_newline(s, from) ==> s[j] != NEWLINE,
    decreases s.len() - from,
{
    if from < s.len() && s[from] != NEWLINE {
        lemma_find_newline(s, from + 1);
    }
}

/// The lines of a byte stream: maximal runs of bytes separated by
/// newlines, the separators themselves left out.  A final run without a
/// terminating newline still counts as a line; an empty stream has no
/// lines.
pub open spec fn spec_lines(s: Seq<u8>) -> Seq<Seq<u8>>
    decreases s.len(),
{
    if s.len() == 0 {
        Seq::empty()
    } else {
        let n = spec_find_newline(s, 0);
        if 0 <= n < s.len() {
            seq![s.subrange(0, n)] + spec_lines(s.subrange(n + 1, s.len() as int))
        } else {
            seq![s]
        }
    }
}

/// Where to cut the first chunk of `s`: the first index `i` at or after
/// `from` holding a newline such that the prefix through `i` reaches the
/// target size; `s.len()` when no such index exists.
pub open spec fn spec_chunk_cut(s: Seq<u8>, size: nat, from: int) -> int
    decreases s.len() - from,
{
    if from < 0 || from >= s.len() {
        s.len() as int
    } else if from + 1 >= size && s[from] == NEWLINE {
        from
    } else {
        spec_chunk_cut(s, size, from + 1)
    }
}

pub proof fn lemma_chunk_cut(s: Seq<u8>, size: nat, from: int)
    requires
        0 <= from <= s.len(),
    ensures
        from <= spec_chunk_cut(s, size, from) <= s.len(),
        spec_chunk_cut(s, size, from) < s.len() ==> s[spec_chunk_cut(s, size, from)] == NEWLINE
            && spec_chunk_cut(s, size, from) + 1 >= size,
        forall|j: int|
            from <= j < spec_chunk_cut(s, size, from) ==> !(j + 1 >= size && s[j] == NEWLINE),
    decreases s.len() - from,
{
    if from < s.len() && !(from + 1 >= size && s[from] == NEWLINE) {
        lemma_chunk_cut(s, size, from + 1);
    }
}

/// The line-aligned chunks of `s` for a target size: the first chunk
/// runs through the first qualifying newline, the rest cover what
/// follows; a stream without a qualifying newline is a single chunk,
/// and an empty stream has none.
pub open spec fn spec_chunks(s: Seq<u8>, size: nat) -> Seq<Seq<u8>>
    decreases s.len(),
{
    if s.len() == 0 {
        Seq::empty()
    } else {
        let c = spec_chunk_cut(s, size, 0);
        if 0 <= c < s.len() {
            seq![s.subrange(0, c + 1)] + spec_chunks(s.subrange(c + 1, s.len() as int), size)
        } else {
            seq![s]
        }
    }
}

/// The concatenation of a sequence of byte strings.
pub open spec fn spec_concat(cs: Seq<Seq<u8>>) -> Seq<u8>
    decreases cs.len(),
{
    if cs.len() == 0 {
        Seq::empty()
    } else {
        cs[0] + spec_concat(cs.subrange(1, cs.len() as int))
    }
}

/// Concatenating the chunks of a stream, in order, restores the stream
/// byte for byte.
pub proof fn lemma_chunks_cover(s: Seq<u8>, size: nat)
    ensures
        spec_concat(spec_chunks(s, size)) == s,
    decreases s.len(),
{
    if s.len() == 0 {
        assert(spec_concat(spec_chunks(s, size)) =~= s);
    } else {
        lemma_chunk_cut(s, size, 0);
        let c = spec_chunk_cut(s, size, 0);
        if 0 <= c < s.len() {
            let rest = s.subrange(c + 1, s.len() as int);
            let cs = spec_chunks(s, size);
            lemma_chunks_cover(rest, size);
            assert(cs.subrange(1, cs.len() as int) =~= spec_chunks(rest, size));
            assert(s.subrange(0, c + 1) + rest =~= s);
        } else {
            let cs = spec_chunks(s, size);
            assert(cs.subrange(1, cs.len() as int) =~= Seq::<Seq<u8>>::empty());
            assert(spec_concat(Seq::<Seq<u8>>::empty()) == Seq::<u8>::empty());
            assert(spec_concat(cs) =~= s);
        }
    }
}

/// No chunk is empty, and every chunk but the last ends immediately
/// after a newline, so a chunk boundary never falls inside a line.
pub proof fn lemma_chunks_line_aligned(s: Seq<u8>, size: nat)
    ensures
        forall|k: int|
            0 <= k < spec_chunks(s, size).len() ==> (#[trigger] spec_chunks(s, size)[k]).len()
                > 0,
        forall|k: int|
            0 <= k < spec_chunks(s, size).len() - 1 ==> (#[trigger] spec_chunks(
                s,
                size,
            )[k]).last() == NEWLINE,
    decreases s.len(),
{
    if s.len() == 0 {
    } else {
        lemma_chunk_cut(s, size, 0);
        let c = spec_chunk_cut(s, size, 0);
        if 0 <= c < s.len() {
            let rest = s.subrange(c + 1, s.len() as int);
            lemma_chunks_line_aligned(rest, size);
            let cs = spec_chunks(s, size);
            assert(cs[0].len() > 0);
            assert(cs[0].last() == s[c]);
            assert(forall|k: int|
                1 <= k < cs.len() ==> #[trigger] cs[k] == spec_chunks(rest, size)[k - 1]);
        }
    }
}

/// When `a` ends immediately after a newline, the lines of `a + b` are
/// the lines of `a` followed by the lines of `b`.  This is what makes
/// per-chunk matching equivalent to matching the whole stream.
pub proof fn lemma_lines_append(a: Seq<u8>, b: Seq<u8>)
    requires
        a.len() > 0,
        a.last() == NEWLINE,
    ensures
        spec_lines(a + b) == spec_lines(a) + spec_lines(b),
    decreases a.len(),
{
    lemma_find_newline_prefix(a, b, 0);
    lemma_find_newline(a, 0);
    lemma_find_newline(a + b, 0);
    let n = spec_find_newline(a, 0);
    assert(n < a.len()) by {
        if n == a.len() {
            assert(a[a.len() - 1] != NEWLINE);
        }
    }
    assert(spec_find_newline(a + b, 0) == n);
    let ab = a + b;
    assert(ab.subrange(0, n) =~= a.subrange(0, n));
    if n + 1 == a.len() {
        assert(ab.subrange(n + 1, ab.len() as int) =~= b);
        assert(a.subrange(n + 1, a.len() as int).len() == 0);
        assert(spec_lines(a.subrange(n + 1, a.len() as int)) =~= Seq::<Seq<u8>>::empty());
        assert(spec_lines(a) =~= seq![a.subrange(0, n)]);
        assert(spec_lines(ab) =~= spec_lines(a) + spec_lines(b));
    } else {
        let tail = a.subrange(n + 1, a.len() as int);
        assert(tail.last() == a.last());
        lemma_lines_append(tail, b);
        assert(ab.subrange(n + 1, ab.len() as int) =~= tail + b);
        assert(spec_lines(ab) =~= spec_lines(a) + spec_lines(b));
    }
}

/// The first newline of `a + b` is the first newline of `a`, as long as
/// `a` holds one at all.
pub proof fn lemma_find_newline_prefix(a: Seq<u8>, b: Seq<u8>, from: int)
    requires
        0 <= from <= a.len(),
    ensures
        spec_find_newline(a, from) < a.len() ==> spec_find_newline(a + b, from)
            == spec_find_newline(a, from),
    decreases a.len() - from,
{
    if from < a.len() {
        assert((a + b)[from] == a[from]);
        if a[from] != NEWLINE {
            lemma_find_newline_prefix(a, b, from + 1);
        }
    }
}

/// Finds the end of the first chunk of the suffix of `content` that
/// starts at `start`: the index just past which that chunk is cut.
fn find_chunk_cut(content: &[u8], start: usize, chunk_size: usize) -> (r: usize)
    requires
        start <= content@.len(),
    ensures
        start <= r <= content@.len(),
        r - start == spec_chunk_cut(
            content@.subrange(start as int, content@.len() as int),
            chunk_size as nat,
            0,
        ),
{
    let ghost suffix = content@.subrange(start as int, content@.len() as int);
    let mut i: usize = start;
    loop
        invariant
            start <= i <= content@.len(),
            suffix == content@.subrange(start as int, content@.len() as int),
            spec_chunk_cut(suffix, chunk_size as nat, 0) == spec_chunk_cut(
                suffix,
                chunk_size as nat,
                i - start,
            ),
        decreases content@.len() - i,
    {
        if i >= content.len() {
            proof {
                assert(i - start >= suffix.len());
            }
            return i;
        }
        proof {
            assert(suffix[i - start] == content@[i as int]);
        }
        if (i - start) + 1 >= chunk_size && content[i] == NEWLINE {
            return i;
        }
        i = i + 1;
    }
}

/// A stream has no more lines than bytes: every line but possibly the
/// last consumes its newline too.
pub proof fn lemma_lines_count(s: Seq<u8>)
    ensures
        spec_lines(s).len() <= s.len(),
    decreases s.len(),
{
    if s.len() > 0 {
        lemma_find_newline(s, 0);
        let n = spec_find_newline(s, 0);
        if 0 <= n < s.len() {
            lemma_lines_count(s.subrange(n + 1, s.len() as int));
        }
    }
}

/// Concatenation distributes over appending sequences of byte strings.
pub proof fn lemma_concat_append(xs: Seq<Seq<u8>>, ys: Seq<Seq<u8>>)
    ensures
        spec_concat(xs + ys) == spec_concat(xs) + spec_concat(ys),
    decreases xs.len(),
{
    if xs.len() == 0 {
        assert(xs + ys =~= ys);
        assert(spec_concat(xs) + spec_concat(ys) =~= spec_concat(ys));
    } else {
        lemma_concat_append(xs.subrange(1, xs.len() as int), ys);
        assert((xs + ys).subrange(1, (xs + ys).len() as int) =~= xs.subrange(
            1,
            xs.len() as int,
        ) + ys);
        assert(spec_concat(xs + ys) =~= spec_concat(xs) + spec_concat(ys));
    }
}

/// Splitting one byte string off the front of a concatenation.
pub proof fn lemma_concat_step(cs: Seq<Seq<u8>>, k: int)
    requires
        0 <= k < cs.len(),
    ensures
        spec_concat(cs.subrange(k, cs.len() as int)) == cs[k] + spec_concat(
            cs.subrange(k + 1, cs.len() as int),
        ),
        spec_concat(cs.subrange(0, k + 1)) == spec_concat(cs.subrange(0, k)) + cs[k],
{
    let tail = cs.subrange(k, cs.len() as int);
    assert(tail[0] == cs[k]);
    assert(tail.subrange(1, tail.len() as int) =~= cs.subrange(k + 1, cs.len() as int));
    lemma_concat_append(cs.subrange(0, k), seq![cs[k]]);
    assert(cs.subrange(0, k + 1) =~= cs.subrange(0, k) + seq![cs[k]]);
    assert(spec_concat(seq![cs[k]]) =~= cs[k]) by {
        assert(seq![cs[k]].subrange(1, 1) =~= Seq::<Seq<u8>>::empty());
        assert(spec_concat(Seq::<Seq<u8>>::empty()) == Seq::<u8>::empty());
    }
}

/// Finds the end of the line of `content` that starts at `start`: the
/// index of the newline that closes it, or the end of the stream.
pub fn find_line_end(content: &[u8], start: usize) -> (r: usize)
    requires
        start <= content@.len(),
    ensures
        start <= r <= content@.len(),
        r - start == spec_find_newline(
            content@.subrange(start as int, content@.len() as int),
            0,
        ),
{
    let ghost suffix = content@.subrange(start as int, content@.len() as int);
    let mut i: usize = start;
    loop
        invariant
            start <= i <= content@.len(),
            suffix == content@.subrange(start as int, content@.len() as int),
            spec_find_newline(suffix, 0) == spec_find_newline(suffix, i - start),
        decreases content@.len() - i,
    {
        if i >= content.len() {
            proof {
                assert(i - start >= suffix.len());
            }
            return i;
        }
        proof {
            assert(suffix[i - start] == content@[i as int]);
        }
        if content[i] == NEWLINE {
            return i;
        }
        i = i + 1;
    }
}

/// Counts the lines of a byte stream.
pub fn count_lines(content: &[u8]) -> (r: usize)
    ensures
        r == spec_lines(content@).len(),
{
    let mut count: usize = 0;
    let mut pos: usize = 0;
    proof {
        assert(content@.subrange(0, content@.len() as int) =~= content@);
    }
    while pos < content.len()
        invariant
            count <= pos <= content@.len(),
            spec_lines(content@).len() == count + spec_lines(
                content@.subrange(pos as int, content@.len() as int),
            ).len(),
        decreases content@.len() - pos,
    {
        let ghost suffix = content@.subrange(pos as int, content@.len() as int);
        let r = find_line_end(content, pos);
        let next = if r < content.len() {
            r + 1
        } else {
            r
        };
        proof {
            lemma_find_newline(suffix, 0);
            let n = spec_find_newline(suffix, 0);
            if 0 <= n < suffix.len() {
                assert(suffix.subrange(n + 1, suffix.len() as int) =~= content@.subrange(
                    next as int,
                    content@.len() as int,
                ));
            } else {
                assert(next == content@.len());
                assert(content@.subrange(next as int, content@.len() as int).len() == 0);
            }
        }
        count = count + 1;
        pos = next;
    }
    proof {
        assert(content@.subrange(pos as int, content@.len() as int).len() == 0);
    }
    count
}

/// Splits a source's bytes into line-aligned chunks of roughly
/// `chunk_size` bytes each.  Concatenated in order, the chunks restore
/// the input exactly, and every chunk but the last ends with a newline.
pub fn read_chunks(content: &[u8], chunk_size: usize) -> (r: Vec<Vec<u8>>)
    ensures
        r.deep_view() == spec_chunks(content@, chunk_size as nat),
{
    let mut chunks: Vec<Vec<u8>> = Vec::new();
    let mut start: usize = 0;
    proof {
        assert(content@.subrange(0, content@.len() as int) =~= content@);
        assert(chunks.deep_view() + spec_chunks(content@, chunk_size as nat) =~~= spec_chunks(
            content@,
            chunk_size as nat,
        ));
    }
    while start < content.len()
        invariant
            start <= content@.len(),
            spec_chunks(content@, chunk_size as nat) == chunks.deep_view() + spec_chunks(
                content@.subrange(start as int, content@.len() as int),
                chunk_size as nat,
            ),
        decreases content@.len() - start,
    {
        let ghost suffix = content@.subrange(start as int, content@.len() as int);
        let ghost old_chunks = chunks.deep_view();
        proof {
            lemma_chunk_cut(suffix, chunk_size as nat, 0);
        }
        let c = find_chunk_cut(content, start, chunk_size);
        let end = if c >= content.len() {
            content.len()
        } else {
            c + 1
        };
        let piece = vstd::slice::slice_to_vec(&content[start..end]);
        chunks.push(piece);
        proof {
            let cut = spec_chunk_cut(suffix, chunk_size as nat, 0);
            assert(chunks.deep_view() =~~= old_chunks.push(content@.subrange(
                start as int,
                end as int,
            )));
            if 0 <= cut < suffix.len() {
                assert(suffix.subrange(0, cut + 1) =~= content@.subrange(
                    start as int,
                    end as int,
                ));
                assert(suffix.subrange(cut + 1, suffix.len() as int) =~= content@.subrange(
                    end as int,
                    content@.len() as int,
                ));
                assert(spec_chunks(suffix, chunk_size as nat) == seq![
                    content@.subrange(start as int, end as int),
                ] + spec_chunks(
                    content@.subrange(end as int, content@.len() as int),
                    chunk_size as nat,
                ));
            } else {
                assert(end == content@.len());
                assert(suffix =~= content@.subrange(start as int, end as int));
                assert(spec_chunks(suffix, chunk_size as nat) == seq![
                    content@.subrange(start as int, end as int),
                ]);
                assert(spec_chunks(
                    content@.subrange(end as int, content@.len() as int),
                    chunk_size as nat,
                ) =~= Seq::<Seq<u8>>::empty());
            }
            assert(chunks.deep_view() + spec_chunks(
                content@.subrange(end as int, content@.len() as int),
                chunk_size as nat,
            ) =~~= (old_chunks + spec_chunks(suffix, chunk_size as nat)));
        }
        start = end;
    }
    proof {
        assert(content@.subrange(start as int, content@.len() as int).len() == 0);
        assert(chunks.deep_view() + spec_chunks(
            content@.subrange(start as int, content@.len() as int),
            chunk_size as nat,
        ) =~~= chunks.deep_view());
    }
    chunks
}

} // verus!
