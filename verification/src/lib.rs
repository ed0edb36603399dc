//! A virtual machine for a small Lisp.
//!
//! Everything the machine handles is an object: a number, or the address of a
//! *rib*, a triple of objects on a fixed heap. Code, data, the stack and the
//! symbol table are all made of ribs. A program comes as one string of bytes:
//! first the symbol table, then the code.
//!
//! * [`Vm`] is the machine: [`Vm::new`] loads a program, [`Vm::step`] executes
//!   one instruction and [`Vm::run`] executes a program to its end.
//! * [`model`] says in mathematical terms what each operation does.
//! * [`laws`] holds theorems about the machine as a whole.
pub mod error;
pub mod instruction;
pub mod laws;
pub mod model;
pub mod object;
pub mod primitive;
pub mod rib;
pub mod vm;

pub use error::Error;
pub use object::Object;
pub use primitive::Primitive;
pub use vm::{Status, Step, Streams, Vm};
