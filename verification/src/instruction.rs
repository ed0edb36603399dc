//! Instructions of the machine, by the numbers that code ribs hold in their
//! first field.
use vstd::prelude::*;

verus! {

/// Calls a procedure, or jumps to it.
pub const APPLY: u64 = 0;

/// Assigns the top of the stack to a variable.
pub const SET: u64 = 1;

/// Pushes the value of a variable.
pub const GET: u64 = 2;

/// Pushes a constant.
pub const CONSTANT: u64 = 3;

/// Branches on the top of the stack.
pub const IF: u64 = 4;

/// Ends the program.
pub const HALT: u64 = 5;

} // verus!
