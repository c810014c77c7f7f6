//! Test-quality linting and coverage/mutation bookkeeping, with verified contracts.

pub mod spans;
pub mod text;
pub mod paths;
pub mod assoc;
pub mod lint;
pub mod ctl;
pub mod daemon;
