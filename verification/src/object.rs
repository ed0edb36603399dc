//! Objects, the values that the machine handles.
use vstd::prelude::*;

verus! {

/// The tag of a pair, and of an entry of the stack.
pub const PAIR_TAG: u64 = 0;

/// The tag of a procedure.
pub const CLOSURE_TAG: u64 = 1;

/// The tag of a symbol.
pub const SYMBOL_TAG: u64 = 2;

/// The tag of a string.
pub const STRING_TAG: u64 = 3;

/// The tag of the false, the true and the nil object.
pub const SINGLETON_TAG: u64 = 5;

/// A number, or the address of a rib.
#[derive(Clone, Copy, Debug, PartialEq, Eq, Structural)]
pub enum Object {
    Number(u64),
    Rib(u64),
}

impl Object {
    /// The number, or the address as a number.
    pub open spec fn raw(self) -> u64 {
        match self {
            Object::Number(number) => number,
            Object::Rib(address) => address,
        }
    }

    /// Returns the number, or the address as a number.
    pub fn to_raw(self) -> (raw: u64)
        ensures
            raw == self.raw(),
    {
        match self {
            Object::Number(number) => number,
            Object::Rib(address) => address,
        }
    }

    /// Tells whether the object is the address of a rib.
    pub fn is_rib(self) -> (rib: bool)
        ensures
            rib == (self is Rib),
    {
        match self {
            Object::Number(_) => false,
            Object::Rib(_) => true,
        }
    }
}

} // verus!
