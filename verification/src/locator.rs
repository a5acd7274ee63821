//! The search orchestrator and the directory walker's decision rules.
//!
//! The walker itself lists directories in the program layer; every
//! decision it takes — skip a hidden entry, skip an ignored extension,
//! search a file now or on the pool, descend into a subdirectory — is
//! computed and verified here.  So is the rendering of a per-source
//! report and of an error line.

use crate::chunks::spec_lines;
use crate::color::{color_wrap, spec_colorized, Color};
use crate::matcher::{
    get_matches, spec_match_views, spec_matches, spec_render, Match, MatchModel,
};
use crate::options::{Options, OptionsModel};
use crate::pattern::{Pattern, PatternModel};
use crate::pool::ThreadPool;
use vstd::prelude::*;

verus! {

/// Index of the last occurrence of `b` in `s`; `-1` when there is
/// none.
pub open spec fn spec_last_index_of(s: Seq<u8>, b: u8) -> int
    decreases s.len(),
{
    if s.len() == 0 {
        -1
    } else if s.last() == b {
        s.len() - 1
    } else {
        spec_last_index_of(s.subrange(0, s.len() - 1), b)
    }
}

pub proof fn lemma_last_index_of(s: Seq<u8>, b: u8)
    ensures
        -1 <= spec_last_index_of(s, b) < s.len(),
        spec_last_index_of(s, b) >= 0 ==> s[spec_last_index_of(s, b)] == b,
    decreases s.len(),
{
    if s.len() > 0 && s.last() != b {
        lemma_last_index_of(s.subrange(0, s.len() - 1), b);
    }
}

/// Finds the last occurrence of `b` in `s`.
pub fn last_index_of(s: &[u8], b: u8) -> (r: Option<usize>)
    ensures
        match r {
            Some(i) => i as int == spec_last_index_of(s@, b),
            None => spec_last_index_of(s@, b) == -1,
        },
{
    let mut j: usize = s.len();
    proof {
        assert(s@.subrange(0, j as int) =~= s@);
    }
    while j > 0
        invariant
            j <= s@.len(),
            spec_last_index_of(s@, b) == spec_last_index_of(s@.subrange(0, j as int), b),
        decreases j,
    {
        proof {
            assert(s@.subrange(0, j as int).last() == s@[j - 1]);
            assert(s@.subrange(0, j as int).subrange(0, j - 1) =~= s@.subrange(0, j - 1));
        }
        if s[j - 1] == b {
            return Some(j - 1);
        }
        j = j - 1;
    }
    proof {
        assert(s@.subrange(0, 0).len() == 0);
    }
    None
}

/// Whether two byte strings are equal.
pub fn bytes_eq(a: &[u8], b: &[u8]) -> (r: bool)
    ensures
        r == (a@ == b@),
{
    if a.len() != b.len() {
        return false;
    }
    let mut i: usize = 0;
    while i < a.len()
        invariant
            a@.len() == b@.len(),
            0 <= i <= a@.len(),
            forall|j: int| 0 <= j < i ==> a@[j] == b@[j],
        decreases a@.len() - i,
    {
        if a[i] != b[i] {
            return false;
        }
        i = i + 1;
    }
    proof {
        assert(a@ =~= b@);
    }
    true
}

/// The base name of a path: what follows its last separator.
pub open spec fn spec_base_name(path: Seq<u8>) -> Seq<u8> {
    path.subrange(spec_last_index_of(path, 47) + 1, path.len() as int)
}

/// The extension of a file name: what follows its last dot, unless
/// the dot starts the name or there is none.
pub open spec fn spec_extension(name: Seq<u8>) -> Option<Seq<u8>> {
    let d = spec_last_index_of(name, 46);
    if d > 0 {
        Some(name.subrange(d + 1, name.len() as int))
    } else {
        None
    }
}

/// Whether an entry is hidden: its base name starts with a dot.
pub open spec fn spec_is_hidden(name: Seq<u8>) -> bool {
    name.len() > 0 && name[0] == 46
}

/// Whether the bytes `x` spell one of the strings in `list`.
pub open spec fn spec_in_list(list: Seq<Seq<char>>, x: Seq<u8>) -> bool {
    exists|k: int| 0 <= k < list.len() && vstd::utf8::encode_utf8(#[trigger] list[k]) == x
}

/// The base name of a path.
pub fn base_name(path: &[u8]) -> (r: Vec<u8>)
    ensures
        r@ == spec_base_name(path@),
{
    proof {
        lemma_last_index_of(path@, 47);
    }
    let n = path.len();
    let start = match last_index_of(path, 47) {
        Some(i) => i + 1,
        None => 0,
    };
    vstd::slice::slice_to_vec(&path[start..n])
}

/// The extension of a file name, if it has one.
pub fn extension_of(name: &[u8]) -> (r: Option<Vec<u8>>)
    ensures
        match r {
            Some(e) => spec_extension(name@) == Some(e@),
            None => spec_extension(name@) is None,
        },
{
    proof {
        lemma_last_index_of(name@, 46);
    }
    let n = name.len();
    match last_index_of(name, 46) {
        Some(d) => if d > 0 {
            Some(vstd::slice::slice_to_vec(&name[d + 1..n]))
        } else {
            None
        },
        None => None,
    }
}

/// Whether the bytes `x` spell one of the strings in `list`.
pub fn in_list(list: &Vec<String>, x: &[u8]) -> (r: bool)
    ensures
        r == spec_in_list(list.deep_view(), x@),
{
    let mut k: usize = 0;
    while k < list.len()
        invariant
            0 <= k <= list@.len(),
            forall|j: int|
                0 <= j < k ==> vstd::utf8::encode_utf8(#[trigger] list.deep_view()[j]) != x@,
        decreases list@.len() - k,
    {
        let entry = list[k].as_str().as_bytes();
        if bytes_eq(entry, x) {
            proof {
                assert(vstd::utf8::encode_utf8(list.deep_view()[k as int]) == x@);
            }
            return true;
        }
        k = k + 1;
    }
    false
}

/// What kind of filesystem entry a path names.
#[derive(Clone, Copy, PartialEq, Eq, Structural, Debug)]
pub enum EntryKind {
    File,
    Dir,
    Other,
}

/// What the walker does with one directory entry.
#[derive(Clone, Copy, PartialEq, Eq, Structural, Debug)]
pub enum WalkAction {
    Skip,
    SearchOnPool,
    SearchNow,
    Recurse,
}

/// What the orchestrator does with the root it was given.
#[derive(Clone, Copy, PartialEq, Eq, Structural, Debug)]
pub enum RootAction {
    SearchInline,
    SearchFile,
    WalkDir,
    Skip,
}

/// The walker's decision for one entry: a hidden entry is skipped
/// unless hidden entries are shown; a file with an ignored extension
/// is skipped, any other file is searched, on the pool when the run is
/// parallel; a directory is entered only on a recursive walk.
pub open spec fn spec_plan_entry(o: OptionsModel, kind: EntryKind, path: Seq<u8>) -> WalkAction {
    let name = spec_base_name(path);
    if spec_is_hidden(name) && !o.hidden {
        WalkAction::Skip
    } else {
        match kind {
            EntryKind::File => if spec_extension(name) matches Some(e) && spec_in_list(
                o.ignore,
                e,
            ) {
                WalkAction::Skip
            } else if o.is_parallel {
                WalkAction::SearchOnPool
            } else {
                WalkAction::SearchNow
            },
            EntryKind::Dir => if o.is_recursive {
                WalkAction::Recurse
            } else {
                WalkAction::Skip
            },
            EntryKind::Other => WalkAction::Skip,
        }
    }
}

/// The orchestrator's decision for the root: inline content bypasses
/// the filesystem; a root with an ignored extension is not searched;
/// otherwise a file is searched directly and a directory is walked.
pub open spec fn spec_plan_root(
    o: OptionsModel,
    has_inline: bool,
    kind: EntryKind,
    path: Seq<u8>,
) -> RootAction {
    if has_inline {
        RootAction::SearchInline
    } else if spec_extension(spec_base_name(path)) matches Some(e) && spec_in_list(o.ignore, e) {
        RootAction::Skip
    } else {
        match kind {
            EntryKind::File => RootAction::SearchFile,
            EntryKind::Dir => RootAction::WalkDir,
            EntryKind::Other => RootAction::Skip,
        }
    }
}

/// Filter correctness: an entry is searched only if it is a file,
/// visible (or hidden entries are shown), and free of any ignored
/// extension; a file with an ignored extension is always skipped; a
/// directory is entered only on a recursive walk.
pub proof fn lemma_filter_correctness(o: OptionsModel, kind: EntryKind, path: Seq<u8>)
    ensures
        (spec_plan_entry(o, kind, path) == WalkAction::SearchOnPool || spec_plan_entry(
            o,
            kind,
            path,
        ) == WalkAction::SearchNow) ==> {
            &&& kind == EntryKind::File
            &&& spec_is_hidden(spec_base_name(path)) ==> o.hidden
            &&& !(spec_extension(spec_base_name(path)) matches Some(e) && spec_in_list(
                o.ignore,
                e,
            ))
        },
        kind == EntryKind::File && (spec_extension(spec_base_name(path)) matches Some(e)
            && spec_in_list(o.ignore, e)) ==> spec_plan_entry(o, kind, path) == WalkAction::Skip,
        spec_plan_entry(o, kind, path) == WalkAction::Recurse ==> kind == EntryKind::Dir
            && o.is_recursive && (spec_is_hidden(spec_base_name(path)) ==> o.hidden),
        spec_plan_entry(o, kind, path) == WalkAction::SearchOnPool ==> o.is_parallel,
        spec_plan_entry(o, kind, path) == WalkAction::SearchNow ==> !o.is_parallel,
{
}

/// The joined renderings of a report's records, one line each.
pub open spec fn spec_join_renders(ms: Seq<MatchModel>) -> Seq<u8>
    decreases ms.len(),
{
    if ms.len() == 0 {
        Seq::empty()
    } else if ms.len() == 1 {
        spec_render(ms[0])
    } else {
        spec_render(ms[0]) + seq![10u8] + spec_join_renders(ms.subrange(1, ms.len() as int))
    }
}

proof fn lemma_join_renders_snoc(ms: Seq<MatchModel>, m: MatchModel)
    ensures
        spec_join_renders(ms.push(m)) == if ms.len() == 0 {
            spec_render(m)
        } else {
            spec_join_renders(ms) + seq![10u8] + spec_render(m)
        },
    decreases ms.len(),
{
    if ms.len() == 0 {
        assert(ms.push(m).len() == 1);
        assert(ms.push(m)[0] == m);
    } else {
        lemma_join_renders_snoc(ms.subrange(1, ms.len() as int), m);
        assert(ms.push(m).subrange(1, ms.push(m).len() as int) =~= ms.subrange(
            1,
            ms.len() as int,
        ).push(m));
        assert(ms.push(m)[0] == ms[0]);
        if ms.len() == 1 {
            assert(ms.subrange(1, ms.len() as int).len() == 0);
            assert(spec_join_renders(ms.push(m)) =~= spec_join_renders(ms) + seq![10u8]
                + spec_render(m));
        } else {
            assert(spec_join_renders(ms.push(m)) =~= spec_join_renders(ms) + seq![10u8]
                + spec_render(m));
        }
    }
}

/// The rendered report of one source: nothing when there is no record;
/// otherwise a blank line, the label (the path, colored blue) on a
/// line of its own when there is one, then one line per record.
pub open spec fn spec_report(label: Option<Seq<u8>>, ms: Seq<MatchModel>) -> Seq<u8> {
    if ms.len() == 0 {
        Seq::empty()
    } else {
        match label {
            Some(p) => seq![10u8] + spec_colorized(p, Color::Blue) + seq![10u8]
                + spec_join_renders(ms),
            None => seq![10u8] + spec_join_renders(ms),
        }
    }
}

/// The view of an optional label.
pub open spec fn spec_label_view(label: Option<&Vec<u8>>) -> Option<Seq<u8>> {
    match label {
        Some(l) => Some(l@),
        None => None,
    }
}

/// Renders the report of one source.  An empty report renders as
/// nothing: a source without records produces no output at all.
pub fn render_report(label: Option<&Vec<u8>>, records: &Vec<Match>) -> (r: Vec<u8>)
    ensures
        r@ == spec_report(spec_label_view(label), spec_match_views(records@)),
{
    let ghost views = spec_match_views(records@);
    let mut out: Vec<u8> = Vec::new();
    if records.len() == 0 {
        proof {
            assert(out@ =~= spec_report(spec_label_view(label), views));
        }
        return out;
    }
    out.push(10u8);
    match label {
        Some(l) => {
            let mut colored = color_wrap(l.as_slice(), Color::Blue);
            out.append(&mut colored);
            out.push(10u8);
        },
        None => {},
    }
    let ghost header = out@;
    let mut k: usize = 0;
    while k < records.len()
        invariant
            0 < records@.len(),
            views == spec_match_views(records@),
            0 <= k <= records@.len(),
            k == 0 ==> out@ == header,
            k >= 1 ==> out@ == header + spec_join_renders(views.subrange(0, k as int)),
        decreases records@.len() - k,
    {
        if k > 0 {
            out.push(10u8);
        }
        let mut line = records[k].render();
        out.append(&mut line);
        proof {
            assert(records@[k as int]@ == views[k as int]);
            lemma_join_renders_snoc(views.subrange(0, k as int), views[k as int]);
            assert(views.subrange(0, k as int).push(views[k as int]) =~= views.subrange(
                0,
                k as int + 1,
            ));
            if k == 0 {
                assert(out@ =~= header + spec_join_renders(views.subrange(0, 1)));
            } else {
                assert(out@ =~= header + spec_join_renders(views.subrange(0, k as int + 1)));
            }
        }
        k = k + 1;
    }
    proof {
        assert(views.subrange(0, views.len() as int) =~= views);
        assert(out@ =~= spec_report(spec_label_view(label), views));
    }
    out
}

/// An error line for a path that could not be opened or listed:
/// the path, a colon and a space, then the reason.  The program layer
/// writes it to standard error when errors are shown.
pub open spec fn spec_error_line(path: Seq<u8>, reason: Seq<u8>) -> Seq<u8> {
    path + seq![58u8, 32u8] + reason
}

/// Formats an error line for an unreadable path.
pub fn error_line(path: &[u8], reason: &[u8]) -> (r: Vec<u8>)
    ensures
        r@ == spec_error_line(path@, reason@),
{
    let mut out: Vec<u8> = Vec::new();
    out.extend_from_slice(path);
    out.push(58u8);
    out.push(32u8);
    out.extend_from_slice(reason);
    proof {
        assert(out@ =~= spec_error_line(path@, reason@));
    }
    out
}

/// The orchestrator as contracts see it.
pub ghost struct LocatorModel {
    pub pattern: PatternModel,
    pub amount: int,
    pub options: OptionsModel,
    pub pool_size: int,
    pub pool_submitted: int,
    pub pool_completed: int,
    pub pool_closed: bool,
}

/// The orchestrator: owns the pattern, the option snapshot, and the
/// worker-pool ledger for the run's lifetime, and counts the records
/// its searches have produced.
pub struct Locator {
    pub pattern: Pattern,
    pub amount: usize,
    threadpool: ThreadPool,
    options: Options,
}

impl View for Locator {
    type V = LocatorModel;

    closed spec fn view(&self) -> LocatorModel {
        LocatorModel {
            pattern: self.pattern@,
            amount: self.amount as int,
            options: self.options@,
            pool_size: self.threadpool.spec_size(),
            pool_submitted: self.threadpool.spec_submitted(),
            pool_completed: self.threadpool.spec_completed(),
            pool_closed: self.threadpool.spec_closed(),
        }
    }
}

impl Locator {
    /// The orchestrator's invariant: its pool ledger is well formed.
    pub open spec fn wf(&self) -> bool {
        self.spec_pool().wf()
    }

    /// The pool ledger itself.
    pub closed spec fn spec_pool(&self) -> ThreadPool {
        self.threadpool
    }

    /// An orchestrator over a freshly created pool.
    pub fn new(tp: ThreadPool, pattern: Pattern, opts: Options) -> (r: Locator)
        requires
            tp.wf(),
        ensures
            r.wf(),
            r@.pattern == pattern@,
            r@.amount == 0,
            r@.options == opts@,
            r@.pool_size == tp.spec_size(),
            r@.pool_submitted == tp.spec_submitted(),
            r@.pool_completed == tp.spec_completed(),
            r@.pool_closed == tp.spec_closed(),
    {
        Locator { pattern, amount: 0, threadpool: tp, options: opts }
    }

    /// The option snapshot, for the walking layer to consult.
    pub fn options(&self) -> (r: &Options)
        ensures
            r@ == self@.options,
    {
        &self.options
    }

    /// What to do with the root this run was given.
    pub fn plan_root(&self, has_inline: bool, kind: EntryKind, path: &[u8]) -> (r: RootAction)
        ensures
            r == spec_plan_root(self@.options, has_inline, kind, path@),
    {
        if has_inline {
            return RootAction::SearchInline;
        }
        let name = base_name(path);
        match extension_of(name.as_slice()) {
            Some(e) => {
                if in_list(&self.options.ignore, e.as_slice()) {
                    return RootAction::Skip;
                }
            },
            None => {},
        }
        match kind {
            EntryKind::File => RootAction::SearchFile,
            EntryKind::Dir => RootAction::WalkDir,
            EntryKind::Other => RootAction::Skip,
        }
    }

    /// What the walker does with one directory entry.
    pub fn plan_entry(&self, kind: EntryKind, path: &[u8]) -> (r: WalkAction)
        ensures
            r == spec_plan_entry(self@.options, kind, path@),
    {
        let name = base_name(path);
        let hidden_name = name.len() > 0 && name[0] == 46;
        if hidden_name && !self.options.hidden {
            return WalkAction::Skip;
        }
        match kind {
            EntryKind::File => {
                match extension_of(name.as_slice()) {
                    Some(e) => {
                        if in_list(&self.options.ignore, e.as_slice()) {
                            return WalkAction::Skip;
                        }
                    },
                    None => {},
                }
                if self.options.is_parallel {
                    WalkAction::SearchOnPool
                } else {
                    WalkAction::SearchNow
                }
            },
            EntryKind::Dir => if self.options.is_recursive {
                WalkAction::Recurse
            } else {
                WalkAction::Skip
            },
            EntryKind::Other => WalkAction::Skip,
        }
    }

    /// Searches content supplied inline in place of a filesystem
    /// root, and renders its (unlabeled) report.
    pub fn search_inline(&mut self, content: &[u8]) -> (r: Vec<u8>)
        requires
            old(self).wf(),
        ensures
            final(self).wf(),
            r@ == spec_report(
                None,
                spec_matches(
                    old(self)@.pattern,
                    spec_lines(content@),
                    old(self)@.options.invert_match,
                    0,
                ),
            ),
            final(self)@ == (LocatorModel {
                amount: spec_saturating_add(
                    old(self)@.amount,
                    spec_matches(
                        old(self)@.pattern,
                        spec_lines(content@),
                        old(self)@.options.invert_match,
                        0,
                    ).len() as int,
                ),
                ..old(self)@
            }),
    {
        let records = get_matches(&self.pattern, content, self.options.invert_match);
        let report = render_report(None, &records);
        proof {
            assert(spec_match_views(records@).len() == records@.len());
        }
        self.amount = saturating_add(self.amount, records.len());
        report
    }

    /// Searches the bytes of one file and renders its report, labeled
    /// with the file's path.
    pub fn search_file_content(&mut self, path: &Vec<u8>, content: &[u8]) -> (r: Vec<u8>)
        requires
            old(self).wf(),
        ensures
            final(self).wf(),
            r@ == spec_report(
                Some(path@),
                spec_matches(
                    old(self)@.pattern,
                    spec_lines(content@),
                    old(self)@.options.invert_match,
                    0,
                ),
            ),
            final(self)@ == (LocatorModel {
                amount: spec_saturating_add(
                    old(self)@.amount,
                    spec_matches(
                        old(self)@.pattern,
                        spec_lines(content@),
                        old(self)@.options.invert_match,
                        0,
                    ).len() as int,
                ),
                ..old(self)@
            }),
    {
        let records = get_matches(&self.pattern, content, self.options.invert_match);
        let report = render_report(Some(path), &records);
        proof {
            assert(spec_match_views(records@).len() == records@.len());
        }
        self.amount = saturating_add(self.amount, records.len());
        report
    }

    /// Whether the pool still admits jobs.
    pub fn pool_is_open(&self) -> (r: bool)
        ensures
            r == !self@.pool_closed,
    {
        !self.threadpool.is_closed()
    }

    /// How many jobs the pool has admitted so far.
    pub fn jobs_submitted(&self) -> (r: usize)
        ensures
            r as int == self@.pool_submitted,
    {
        self.threadpool.submitted()
    }

    /// Admits one file-search job to the pool ledger.
    pub fn submit_job(&mut self)
        requires
            old(self).wf(),
            !old(self)@.pool_closed,
            old(self)@.pool_submitted < usize::MAX,
        ensures
            final(self).wf(),
            final(self)@ == (LocatorModel {
                pool_submitted: old(self)@.pool_submitted + 1,
                ..old(self)@
            }),
    {
        self.threadpool.execute();
    }

    /// Accounts one pending job finished.
    pub fn job_done(&mut self)
        requires
            old(self).wf(),
            old(self)@.pool_submitted > old(self)@.pool_completed,
        ensures
            final(self).wf(),
            final(self)@ == (LocatorModel {
                pool_completed: old(self)@.pool_completed + 1,
                ..old(self)@
            }),
    {
        self.threadpool.complete();
    }

    /// Closes the pool and waits out every submitted job: the one
    /// synchronization barrier before the run may end.
    pub fn join_all_threads(&mut self)
        requires
            old(self).wf(),
        ensures
            final(self).wf(),
            final(self)@ == (LocatorModel {
                pool_closed: true,
                pool_completed: old(self)@.pool_submitted,
                ..old(self)@
            }),
    {
        self.threadpool.join_all();
    }
}

/// A sum that stops at the largest representable count.
pub open spec fn spec_saturating_add(a: int, b: int) -> int {
    if a + b <= usize::MAX {
        a + b
    } else {
        usize::MAX as int
    }
}

fn saturating_add(a: usize, b: usize) -> (r: usize)
    ensures
        r == spec_saturating_add(a as int, b as int),
{
    if a <= usize::MAX - b {
        a + b
    } else {
        usize::MAX
    }
}

} // verus!
