//! Primitive procedures.
use vstd::prelude::*;

verus! {

/// The number of primitives.
pub const PRIMITIVE_COUNT: u64 = 20;

/// A procedure that is built into the machine.
#[derive(Clone, Copy, Debug, PartialEq, Eq, Structural)]
pub enum Primitive {
    Rib,
    Id,
    Pop,
    Skip,
    Close,
    IsRib,
    Field0,
    Field1,
    Field2,
    SetField0,
    SetField1,
    SetField2,
    Equal,
    LessThan,
    Add,
    Subtract,
    Multiply,
    Divide,
    GetC,
    PutC,
}

impl Primitive {
    /// The number of a primitive: its place in the list above.
    pub open spec fn number(self) -> u64 {
        match self {
            Primitive::Rib => 0,
            Primitive::Id => 1,
            Primitive::Pop => 2,
            Primitive::Skip => 3,
            Primitive::Close => 4,
            Primitive::IsRib => 5,
            Primitive::Field0 => 6,
            Primitive::Field1 => 7,
            Primitive::Field2 => 8,
            Primitive::SetField0 => 9,
            Primitive::SetField1 => 10,
            Primitive::SetField2 => 11,
            Primitive::Equal => 12,
            Primitive::LessThan => 13,
            Primitive::Add => 14,
            Primitive::Subtract => 15,
            Primitive::Multiply => 16,
            Primitive::Divide => 17,
            Primitive::GetC => 18,
            Primitive::PutC => 19,
        }
    }

    /// The primitive with a number, if there is one.
    pub open spec fn of(number: u64) -> Option<Primitive> {
        if exists|primitive: Primitive| primitive.number() == number {
            Some(choose|primitive: Primitive| primitive.number() == number)
        } else {
            None
        }
    }

    /// Returns the primitive with the given number, if there is one.
    pub fn from_raw(number: u64) -> (primitive: Option<Primitive>)
        ensures
            primitive == Primitive::of(number),
            primitive is Some <==> number < PRIMITIVE_COUNT,
    {
        let primitive = match number {
            0 => Some(Primitive::Rib),
            1 => Some(Primitive::Id),
            2 => Some(Primitive::Pop),
            3 => Some(Primitive::Skip),
            4 => Some(Primitive::Close),
            5 => Some(Primitive::IsRib),
            6 => Some(Primitive::Field0),
            7 => Some(Primitive::Field1),
            8 => Some(Primitive::Field2),
            9 => Some(Primitive::SetField0),
            10 => Some(Primitive::SetField1),
            11 => Some(Primitive::SetField2),
            12 => Some(Primitive::Equal),
            13 => Some(Primitive::LessThan),
            14 => Some(Primitive::Add),
            15 => Some(Primitive::Subtract),
            16 => Some(Primitive::Multiply),
            17 => Some(Primitive::Divide),
            18 => Some(Primitive::GetC),
            19 => Some(Primitive::PutC),
            _ => None,
        };
        proof {
            if let Some(primitive) = primitive {
                lemma_primitive_of(primitive);
            }
        }
        primitive
    }
}

/// A primitive is the only one with its number.
pub proof fn lemma_primitive_of(primitive: Primitive)
    ensures
        Primitive::of(primitive.number()) == Some(primitive),
{
    let chosen = choose|other: Primitive| other.number() == primitive.number();
    assert(chosen.number() == primitive.number());
}

/// An arithmetic operation.
#[derive(Clone, Copy, Debug, PartialEq, Eq, Structural)]
pub enum Operator {
    Add,
    Subtract,
    Multiply,
    Divide,
}

impl Operator {
    /// The result, if it is a number of the machine.
    pub open spec fn result(self, x: u64, y: u64) -> Option<u64> {
        let result = match self {
            Operator::Add => x + y,
            Operator::Subtract => x - y,
            Operator::Multiply => x * y,
            Operator::Divide => x as int / y as int,
        };
        if 0 <= result <= u64::MAX && !(self is Divide && y == 0) {
            Some(result as u64)
        } else {
            None
        }
    }

    /// Calculates the result, if it is a number of the machine.
    pub fn calculate(self, x: u64, y: u64) -> (result: Option<u64>)
        ensures
            result == self.result(x, y),
    {
        match self {
            Operator::Add => x.checked_add(y),
            Operator::Subtract => x.checked_sub(y),
            Operator::Multiply => {
                proof {
                    assert(0 <= x * y) by (nonlinear_arith);
                }
                x.checked_mul(y)
            },
            Operator::Divide => if y == 0 {
                None
            } else {
                proof {
                    assert(0 <= x as int / y as int <= x) by (nonlinear_arith)
                        requires
                            y > 0,
                    ;
                }
                Some(x / y)
            },
        }
    }
}

/// A condition on two numbers.
#[derive(Clone, Copy, Debug, PartialEq, Eq, Structural)]
pub enum Comparison {
    Equal,
    LessThan,
}

impl Comparison {
    pub open spec fn holds(self, x: u64, y: u64) -> bool {
        match self {
            Comparison::Equal => x == y,
            Comparison::LessThan => x < y,
        }
    }

    /// Tells whether the condition holds.
    pub fn test(self, x: u64, y: u64) -> (holds: bool)
        ensures
            holds == self.holds(x, y),
    {
        match self {
            Comparison::Equal => x == y,
            Comparison::LessThan => x < y,
        }
    }
}

} // verus!
