//! Errors of programs.
use vstd::prelude::*;

verus! {

/// The reason why a program is rejected while it runs.
#[derive(Clone, Copy, Debug, PartialEq, Eq, Structural)]
pub enum Error {
    /// The program counter is at a rib that holds no instruction.
    IllegalInstruction,
    /// A procedure's code is a number that stands for no primitive.
    IllegalPrimitive,
}

} // verus!
