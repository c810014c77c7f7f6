//! Coverage gaps: lines or branches that no test executed.

use vstd::prelude::*;

verus! {

/// A line or branch region of a file that the tests did not execute.
#[derive(Debug)]
pub struct CoverageGap {
    pub file_path: String,
    pub line: u32,
    pub column_start: Option<u32>,
    pub column_end: Option<u32>,
    pub count: u64,
    pub is_branch: bool,
}

impl Clone for CoverageGap {
    fn clone(&self) -> (r: Self)
        ensures
            r == *self,
    {
        CoverageGap {
            file_path: self.file_path.clone(),
            line: self.line,
            column_start: self.column_start,
            column_end: self.column_end,
            count: self.count,
            is_branch: self.is_branch,
        }
    }
}

} // verus!
