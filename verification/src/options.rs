//! The immutable snapshot of flags the search core consumes.
//!
//! Options are decoded once from parsed argument keys, before any
//! search work begins, and never change mid-search.  The extension
//! lists gather the values of repeated `--ignore` and `--include`
//! flags.

use crate::parser::{str_eq, ArgKey, ArgKeyModel};
use vstd::prelude::*;

verus! {

/// The option snapshot as contracts see it.
pub ghost struct OptionsModel {
    pub is_parallel: bool,
    pub ignore: Seq<Seq<char>>,
    pub include_ext: Seq<Seq<char>>,
    pub is_recursive: bool,
    pub invert_match: bool,
    pub show_help: bool,
    pub hidden: bool,
    pub show_errors: bool,
    pub verbose: bool,
    pub ignore_case: bool,
}

/// The flags the search core consumes: parallelism, recursion,
/// visibility of hidden entries, invert matching, case folding, the
/// extension ignore and include lists, error reporting and verbosity.
pub struct Options {
    pub is_parallel: bool,
    pub ignore: Vec<String>,
    pub include_ext: Vec<String>,
    pub is_recursive: bool,
    pub invert_match: bool,
    pub show_help: bool,
    pub hidden: bool,
    pub show_errors: bool,
    pub verbose: bool,
    pub ignore_case: bool,
}

impl View for Options {
    type V = OptionsModel;

    open spec fn view(&self) -> OptionsModel {
        OptionsModel {
            is_parallel: self.is_parallel,
            ignore: self.ignore.deep_view(),
            include_ext: self.include_ext.deep_view(),
            is_recursive: self.is_recursive,
            invert_match: self.invert_match,
            show_help: self.show_help,
            hidden: self.hidden,
            show_errors: self.show_errors,
            verbose: self.verbose,
            ignore_case: self.ignore_case,
        }
    }
}

/// The defaults: parallel search of the given root only, case
/// sensitive, matches reported, errors not reported.
pub open spec fn spec_default_options() -> OptionsModel {
    OptionsModel {
        is_parallel: true,
        ignore: Seq::empty(),
        include_ext: Seq::empty(),
        is_recursive: false,
        invert_match: false,
        show_help: false,
        hidden: false,
        show_errors: false,
        verbose: false,
        ignore_case: false,
    }
}

/// What one parsed key turns on: short keys and long keys name the
/// same flags; `--include` and `--ignore` extend their lists; an
/// unknown key changes nothing.
pub open spec fn spec_update(o: OptionsModel, a: ArgKeyModel) -> OptionsModel {
    match a {
        ArgKeyModel::Short(k) => if k == "r"@ {
            OptionsModel { is_recursive: true, ..o }
        } else if k == "v"@ {
            OptionsModel { invert_match: true, ..o }
        } else if k == "x"@ {
            OptionsModel { show_errors: true, ..o }
        } else if k == "i"@ {
            OptionsModel { ignore_case: true, ..o }
        } else if k == "h"@ {
            OptionsModel { show_help: true, ..o }
        } else {
            o
        },
        ArgKeyModel::Long(k) => if k == "single-thread"@ {
            OptionsModel { is_parallel: false, ..o }
        } else if k == "recursive"@ {
            OptionsModel { is_recursive: true, ..o }
        } else if k == "invert-match"@ {
            OptionsModel { invert_match: true, ..o }
        } else if k == "help"@ {
            OptionsModel { show_help: true, ..o }
        } else if k == "hidden"@ {
            OptionsModel { hidden: true, ..o }
        } else if k == "show-errors"@ {
            OptionsModel { show_errors: true, ..o }
        } else if k == "verbose"@ {
            OptionsModel { verbose: true, ..o }
        } else if k == "ignore-case"@ {
            OptionsModel { ignore_case: true, ..o }
        } else {
            o
        },
        ArgKeyModel::LongWithArgs(k, vs) => if k == "include"@ {
            OptionsModel { include_ext: o.include_ext + vs, ..o }
        } else if k == "ignore"@ {
            OptionsModel { ignore: o.ignore + vs, ..o }
        } else {
            o
        },
    }
}

/// A copy of a list of strings.
fn clone_strings(v: &Vec<String>) -> (r: Vec<String>)
    ensures
        r.deep_view() == v.deep_view(),
{
    let mut out: Vec<String> = Vec::new();
    let mut i: usize = 0;
    while i < v.len()
        invariant
            0 <= i <= v@.len(),
            out@.len() == i,
            forall|j: int| 0 <= j < i ==> (#[trigger] out@[j])@ == v@[j]@,
        decreases v@.len() - i,
    {
        out.push(v[i].clone());
        i = i + 1;
    }
    proof {
        assert(out.deep_view() =~~= v.deep_view());
    }
    out
}

impl Options {
    /// The default snapshot, before any flag is applied.
    pub fn new() -> (r: Options)
        ensures
            r@ == spec_default_options(),
    {
        let r = Options {
            is_parallel: true,
            ignore: Vec::new(),
            include_ext: Vec::new(),
            is_recursive: false,
            invert_match: false,
            show_help: false,
            hidden: false,
            show_errors: false,
            verbose: false,
            ignore_case: false,
        };
        proof {
            assert(r.ignore.deep_view() =~= Seq::<Seq<char>>::empty());
            assert(r.include_ext.deep_view() =~= Seq::<Seq<char>>::empty());
        }
        r
    }

    /// Applies one parsed key to the snapshot.
    pub fn update(&mut self, arg: &ArgKey)
        ensures
            final(self)@ == spec_update(old(self)@, arg@),
    {
        match arg {
            ArgKey::Short(k) => {
                if str_eq(k.as_str(), "r") {
                    self.is_recursive = true;
                } else if str_eq(k.as_str(), "v") {
                    self.invert_match = true;
                } else if str_eq(k.as_str(), "x") {
                    self.show_errors = true;
                } else if str_eq(k.as_str(), "i") {
                    self.ignore_case = true;
                } else if str_eq(k.as_str(), "h") {
                    self.show_help = true;
                }
            },
            ArgKey::Long(k) => {
                if str_eq(k.as_str(), "single-thread") {
                    self.is_parallel = false;
                } else if str_eq(k.as_str(), "recursive") {
                    self.is_recursive = true;
                } else if str_eq(k.as_str(), "invert-match") {
                    self.invert_match = true;
                } else if str_eq(k.as_str(), "help") {
                    self.show_help = true;
                } else if str_eq(k.as_str(), "hidden") {
                    self.hidden = true;
                } else if str_eq(k.as_str(), "show-errors") {
                    self.show_errors = true;
                } else if str_eq(k.as_str(), "verbose") {
                    self.verbose = true;
                } else if str_eq(k.as_str(), "ignore-case") {
                    self.ignore_case = true;
                }
            },
            ArgKey::LongWithArgs(pair) => {
                let (k, vs) = pair;
                if str_eq(k.as_str(), "include") {
                    self.includes(clone_strings(vs));
                } else if str_eq(k.as_str(), "ignore") {
                    self.ignores(clone_strings(vs));
                }
            },
        }
    }

    /// Extends the list of ignored extensions.
    pub fn ignores(&mut self, ignore_list: Vec<String>)
        ensures
            final(self)@ == (OptionsModel {
                ignore: old(self)@.ignore + ignore_list.deep_view(),
                ..old(self)@
            }),
    {
        let mut l = ignore_list;
        self.ignore.append(&mut l);
        proof {
            assert(self.ignore.deep_view() =~~= old(self)@.ignore + ignore_list.deep_view());
        }
    }

    /// Extends the list of included extensions.
    pub fn includes(&mut self, include_list: Vec<String>)
        ensures
            final(self)@ == (OptionsModel {
                include_ext: old(self)@.include_ext + include_list.deep_view(),
                ..old(self)@
            }),
    {
        let mut l = include_list;
        self.include_ext.append(&mut l);
        proof {
            assert(self.include_ext.deep_view() =~~= old(self)@.include_ext
                + include_list.deep_view());
        }
    }

    /// A copy of the snapshot, for a job that owns its own options.
    pub fn duplicate(&self) -> (r: Options)
        ensures
            r@ == self@,
    {
        Options {
            is_parallel: self.is_parallel,
            ignore: clone_strings(&self.ignore),
            include_ext: clone_strings(&self.include_ext),
            is_recursive: self.is_recursive,
            invert_match: self.invert_match,
            show_help: self.show_help,
            hidden: self.hidden,
            show_errors: self.show_errors,
            verbose: self.verbose,
            ignore_case: self.ignore_case,
        }
    }
}

} // verus!
