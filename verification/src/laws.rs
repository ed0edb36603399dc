//! Theorems about the machine as a whole.
pub mod calls;
pub mod codes;
pub mod decoding;
pub mod execution;
pub mod heap;
pub mod instructions;
pub mod integrity;
pub mod memory;
pub mod primitives;
pub mod runs;
pub mod start;
pub mod symbols;
pub mod values;
