//! The coverage/mutation daemon's bookkeeping: the coverage matrix, the diagnostics cache,
//! and the decisions of its pipeline.

pub mod cache;
pub mod clock;
pub mod cov_parse;
pub mod ipc;
pub mod matrix;
pub mod mut_parse;
pub mod pipeline;
pub mod watch;
