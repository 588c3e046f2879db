//! An interpreter for a small language of lines: each line of a program is
//! one instruction for a machine with a stack of numbers and a table of
//! variables.
//!
//! [`parser`] reads the lines of a program as instructions, [`machine`]
//! runs them, and [`laws`] states what holds of both. The machine does no
//! input or output of its own: it stops where it needs some, and its host
//! does the work.

pub mod arith;
pub mod fault;
pub mod instruction;
pub mod laws;
pub mod machine;
pub mod parser;
pub mod text;

pub use fault::Fault;
pub use instruction::{Instruction, Operand};
pub use machine::{Action, Event, VM};
pub use parser::{extract_var_name, parse_instruction, parse_operand};
