//! Errors of the LLVM frontend.

use vstd::prelude::*;

verus! {

/// An error raised while reading or translating LLVM IR.
#[derive(Debug, Clone, PartialEq)]
pub enum LlvmError {
    Parse(String),
    UnsupportedType(String),
    UnsupportedInstruction(String),
    UnsupportedIcmpPredicate(String),
    UndefinedValue(String),
    Translation(String),
}

/// The text of an error: a category prefix and the message.
pub open spec fn llvm_error_text(e: LlvmError) -> Seq<char> {
    match e {
        LlvmError::Parse(m) => "parse error: "@ + m@,
        LlvmError::UnsupportedType(m) => "unsupported type: "@ + m@,
        LlvmError::UnsupportedInstruction(m) => "unsupported instruction: "@ + m@,
        LlvmError::UnsupportedIcmpPredicate(m) => "unsupported icmp predicate: "@ + m@,
        LlvmError::UndefinedValue(m) => "undefined value: "@ + m@,
        LlvmError::Translation(m) => "translation error: "@ + m@,
    }
}

impl LlvmError {
    /// The text of this error.
    pub fn to_string(&self) -> (r: String)
        ensures
            r@ == llvm_error_text(*self),
    {
        let (prefix, m) = match self {
            LlvmError::Parse(m) => ("parse error: ", m),
            LlvmError::UnsupportedType(m) => ("unsupported type: ", m),
            LlvmError::UnsupportedInstruction(m) => ("unsupported instruction: ", m),
            LlvmError::UnsupportedIcmpPredicate(m) => ("unsupported icmp predicate: ", m),
            LlvmError::UndefinedValue(m) => ("undefined value: ", m),
            LlvmError::Translation(m) => ("translation error: ", m),
        };
        let mut s = String::from_str(prefix);
        s.append(m.as_str());
        s
    }
}

} // verus!
