//! The conditions that end a run.

use vstd::prelude::*;

verus! {

/// Why the reading of a program or a run was given up. Every fault is final: nothing
/// is retried and nothing is skipped.
#[derive(Debug, Clone, Copy, PartialEq, Eq, Structural)]
pub enum Fault {
    /// A division whose second operand is zero.
    DivisionByZero,
    /// A variable was read that no instruction had bound.
    UnboundVariable,
    /// A branch was taken on an empty stack.
    EmptyStack,
    /// The program's source could not be read again.
    SourceUnavailable,
    /// A line of input is not a signed 32-bit integer.
    InvalidInput,
    /// The number of a `PUSH` or `SET` line is not a signed 32-bit integer.
    InvalidNumber,
    /// Blocks were entered more deeply than the machine allows.
    DepthExceeded,
    /// The machine was handed something it had not asked for.
    UnexpectedEvent,
}

impl Fault {
    /// The words that describe a fault to the operator.
    pub open spec fn message(self) -> Seq<char> {
        match self {
            Fault::DivisionByZero => "Division by zero"@,
            Fault::UnboundVariable => "Undefined variable"@,
            Fault::EmptyStack => "Stack is empty"@,
            Fault::SourceUnavailable => "Failed to open file"@,
            Fault::InvalidInput => "Invalid input"@,
            Fault::InvalidNumber => "Invalid number"@,
            Fault::DepthExceeded => "Blocks nested too deeply"@,
            Fault::UnexpectedEvent => "Unexpected event"@,
        }
    }

    /// Describes the fault in words.
    pub fn describe(&self) -> (r: String)
        ensures
            r@ == self.message(),
    {
        match self {
            Fault::DivisionByZero => "Division by zero".to_owned(),
            Fault::UnboundVariable => "Undefined variable".to_owned(),
            Fault::EmptyStack => "Stack is empty".to_owned(),
            Fault::SourceUnavailable => "Failed to open file".to_owned(),
            Fault::InvalidInput => "Invalid input".to_owned(),
            Fault::InvalidNumber => "Invalid number".to_owned(),
            Fault::DepthExceeded => "Blocks nested too deeply".to_owned(),
            Fault::UnexpectedEvent => "Unexpected event".to_owned(),
        }
    }
}

} // verus!
