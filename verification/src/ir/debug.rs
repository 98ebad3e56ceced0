//! Source locations attached to SAIR instructions.

use vstd::prelude::*;

verus! {

/// Optional debug location attached to a SAIR instruction.
///
/// Debug locations do not affect execution semantics; they are used for
/// diagnostics, profiling, and source-level debugging.
#[derive(Debug, Clone, PartialEq, Eq)]
pub struct DebugLoc {
    pub file: String,
    pub line: u32,
    pub column: Option<u32>,
}

impl DebugLoc {
    /// A location in `file` at `line` and, when given, `column`.
    pub fn new(file: &str, line: u32, column: Option<u32>) -> (r: Self)
        ensures
            r.file@ == file@,
            r.line == line,
            r.column == column,
    {
        DebugLoc { file: String::from_str(file), line, column }
    }
}

} // verus!
