//! Sunwave: an interpreter for a small expression language with closures,
//! modules, tuples, and `loop`/`recur`.
use vstd::prelude::*;

pub mod ast;
pub mod value;
pub mod host;
pub mod environment;
pub mod text;
pub mod format;
pub mod semantics;
pub mod ops;
pub mod eval;
pub mod parser;
pub mod context;
pub mod args;
pub mod laws;
pub mod quiet;

verus! {
} // verus!
