//! The errors that the debugger reports.

use crate::text::{push_decimal, push_str};
use vstd::prelude::*;

verus! {

/// An error of the debugger. Where an error of another library is reported,
/// the variant holds its message.
#[derive(Debug, Clone, PartialEq, Eq)]
pub enum DebuggerError {
    /// The debug information could not be read.
    ReadError(String),
    /// A compilation unit of the debug information could not be parsed.
    UnitError(String),
    /// A file could not be read.
    FileError(String),
    /// The object file is malformed.
    ObjectError(String),
    /// A register index outside the register file.
    RegisterOutOfRange(usize),
    /// More compute units were asked for than were left.
    ComputationalBudgetExceeded,
    /// The program failed.
    InterpreterError(String),
}

/// The result of an operation of the debugger.
pub type DebuggerResult<T> = Result<T, DebuggerError>;

impl DebuggerError {
    /// The message of the error.
    pub open spec fn text(self) -> Seq<char> {
        match self {
            DebuggerError::ReadError(m) => "Failed to read DWARF data: "@ + m@,
            DebuggerError::UnitError(m) => "Failed to parse DWARF unit: "@ + m@,
            DebuggerError::FileError(m) => "Failed to read file: "@ + m@,
            DebuggerError::ObjectError(m) => "Failed to parse object: "@ + m@,
            DebuggerError::RegisterOutOfRange(i) => "Register index "@ + crate::text::decimal(
                i as nat,
            ) + " out of range"@,
            DebuggerError::ComputationalBudgetExceeded => "Computational budget exceeded"@,
            DebuggerError::InterpreterError(m) => "Program error: "@ + m@,
        }
    }

    /// The message of the error.
    pub fn message(&self) -> (m: String)
        ensures
            m@ == self.text(),
    {
        let mut out: String = String::new();
        match self {
            DebuggerError::ReadError(m) => {
                push_str(&mut out, "Failed to read DWARF data: ");
                push_str(&mut out, m.as_str());
            },
            DebuggerError::UnitError(m) => {
                push_str(&mut out, "Failed to parse DWARF unit: ");
                push_str(&mut out, m.as_str());
            },
            DebuggerError::FileError(m) => {
                push_str(&mut out, "Failed to read file: ");
                push_str(&mut out, m.as_str());
            },
            DebuggerError::ObjectError(m) => {
                push_str(&mut out, "Failed to parse object: ");
                push_str(&mut out, m.as_str());
            },
            DebuggerError::RegisterOutOfRange(i) => {
                push_str(&mut out, "Register index ");
                push_decimal(&mut out, *i as u64);
                push_str(&mut out, " out of range");
            },
            DebuggerError::ComputationalBudgetExceeded => {
                push_str(&mut out, "Computational budget exceeded");
            },
            DebuggerError::InterpreterError(m) => {
                push_str(&mut out, "Program error: ");
                push_str(&mut out, m.as_str());
            },
        }
        assert(out@ =~= self.text());
        out
    }
}

} // verus!
