//! Shared model of the coverage/mutation daemon: configuration, coverage gaps, surviving
//! mutants, compiler-style diagnostics, and source spans.

pub mod config;
pub mod coverage;
pub mod diagnostic;
pub mod mutation;
pub mod span;
