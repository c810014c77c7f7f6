//! The test-quality linter: configuration, diagnostics, coverage text, mutation sets, output.

pub mod cov_parse;
pub mod diagnostics;
pub mod files;
pub mod config;
pub mod mutation;
pub mod output;
pub mod rules;
pub mod syntax;
