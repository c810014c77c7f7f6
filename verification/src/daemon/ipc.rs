//! The messages between the daemon and its clients.

use vstd::prelude::*;

verus! {

/// A client's request: the findings for files whose path contains `file`, or all of them.
#[derive(Debug, Clone)]
pub struct IpcRequest {
    pub file: Option<String>,
}

/// The daemon's answer: the matching cache entries, serialized.
#[derive(Debug, Clone)]
pub struct IpcResponse {
    pub diagnostics: String,
}

} // verus!
