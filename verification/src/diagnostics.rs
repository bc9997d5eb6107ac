//! Validation findings.

use vstd::prelude::*;

verus! {

/// One validation finding.
#[derive(Debug)]
pub struct Diagnostic {
    /// Stable diagnostic id, e.g. "missing-section", "one_of".
    pub id: String,
    /// Header path in the document, e.g. "Overview > Goals".
    pub path: String,
    /// 1-based source line of the relevant header, if known.
    pub line: Option<u32>,
    /// Human-readable message.
    pub message: String,
}

impl Clone for Diagnostic {
    fn clone(&self) -> (finding: Self)
        ensures
            finding == *self,
    {
        Diagnostic {
            id: self.id.clone(),
            path: self.path.clone(),
            line: self.line,
            message: self.message.clone(),
        }
    }
}

} // verus!
