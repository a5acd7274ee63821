//! A concurrent line-oriented content search library.
//!
//! The crate provides the verified core of a grep-style search tool:
//! a chunk splitter that partitions a byte stream into line-aligned,
//! bounded-size chunks, a matcher that turns the lines of a chunk into
//! ordered match records, option and argument handling, the decision
//! rules of the directory walker, and a bookkeeping model of the worker
//! pool used for per-file parallelism.  File and terminal I/O live in
//! the thin program layer built on top of this crate.

pub mod chunks;
pub mod cli;
pub mod color;
pub mod locator;
pub mod matcher;
pub mod options;
pub mod parser;
pub mod pattern;
pub mod pool;

use vstd::prelude::*;

verus! {

/// Target size of one chunk of a source's bytes: one mebibyte.  A chunk
/// may exceed this only when a single line is longer than the target.
pub const CHUNK_SIZE: usize = 1024 * 1024;

} // verus!
