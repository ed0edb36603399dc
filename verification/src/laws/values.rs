//! Objects, arithmetic and comparisons.
use crate::object::Object;
use crate::primitive::{lemma_primitive_of, Comparison, Operator, Primitive};
use vstd::prelude::*;

verus! {

/// An object is told by whether it is a rib, and by its raw value.
pub proof fn law_raw_values(x: Object, y: Object)
    ensures
        Object::Number(x.raw()).raw() == x.raw(),
        Object::Rib(x.raw()).raw() == x.raw(),
        x == y <==> (x is Rib <==> y is Rib) && x.raw() == y.raw(),
        x == Object::Number(0) <==> x is Number && x.raw() == 0,
{
}

/// A sum is there if it is a number of 64 bits.
pub proof fn law_sums(x: u64, y: u64)
    ensures
        Operator::Add.result(x, y) is Some <==> x + y < 0x1_0000_0000_0000_0000,
        Operator::Add.result(x, y) matches Some(sum) ==> sum == x + y,
        Operator::Add.result(x, y) == Operator::Add.result(y, x),
{
}

/// A difference is there if the second number is not the larger one. Adding the
/// second number to it gives the first one back.
pub proof fn law_differences(x: u64, y: u64)
    ensures
        Operator::Subtract.result(x, y) is Some <==> y <= x,
        Operator::Subtract.result(x, y) matches Some(difference) ==> {
            &&& difference + y == x
            &&& Operator::Add.result(difference, y) == Some(x)
        },
{
}

/// A product is there if it is a number of 64 bits. It is zero if and only if
/// one of the numbers is, and one more of a number adds that number.
pub proof fn law_products(x: u64, y: u64)
    ensures
        Operator::Multiply.result(x, y) is Some <==> x * y < 0x1_0000_0000_0000_0000,
        Operator::Multiply.result(x, y) matches Some(product) ==> product == x * y,
        Operator::Multiply.result(x, y) == Operator::Multiply.result(y, x),
        Operator::Multiply.result(x, 0) == Some(0u64),
        Operator::Multiply.result(x, 1) == Some(x),
        y > 0 && Operator::Multiply.result(x, y) is Some ==> {
            let less = Operator::Multiply.result(x, (y - 1) as u64);
            &&& less is Some
            &&& Operator::Multiply.result(x, y)->0 == less->0 + x
        },
{
    assert(0 <= x * y) by (nonlinear_arith);
    assert(x * y == y * x) by (nonlinear_arith);
    assert(x * (y - 1) == x * y - x) by (nonlinear_arith);
    if y > 0 {
        assert(0 <= x * (y - 1)) by (nonlinear_arith)
            requires
                y > 0,
        ;
    }
}

/// A quotient is there unless the divisor is zero. It is the number of times
/// that the divisor fits.
pub proof fn law_quotients(x: u64, y: u64)
    ensures
        Operator::Divide.result(x, y) is Some <==> y != 0,
        Operator::Divide.result(x, y) matches Some(quotient) ==> {
            &&& quotient * y <= x
            &&& x < (quotient + 1) * y
        },
{
    if y > 0 {
        let quotient = x as int / y as int;
        assert(0 <= quotient <= x && quotient * y <= x && x < (quotient + 1) * y)
            by (nonlinear_arith)
            requires
                y > 0,
                quotient == x as int / y as int,
        ;
    }
}

/// Numbers are equal if they are the same. Of two numbers, either they are
/// equal or one is less than the other.
pub proof fn law_order(x: u64, y: u64, z: u64)
    ensures
        Comparison::Equal.holds(x, y) <==> x == y,
        Comparison::LessThan.holds(x, y) <==> x < y,
        Comparison::Equal.holds(x, x),
        Comparison::Equal.holds(x, y) == Comparison::Equal.holds(y, x),
        Comparison::LessThan.holds(x, y) && Comparison::LessThan.holds(y, z)
            ==> Comparison::LessThan.holds(x, z),
        Comparison::Equal.holds(x, y) || Comparison::LessThan.holds(x, y)
            || Comparison::LessThan.holds(y, x),
        !(Comparison::LessThan.holds(x, y) && Comparison::LessThan.holds(y, x)),
        !(Comparison::Equal.holds(x, y) && Comparison::LessThan.holds(x, y)),
{
}

/// The numbers that programs call the primitives by.
pub proof fn law_primitives_by_number()
    ensures
        Primitive::of(0) == Some(Primitive::Rib),
        Primitive::of(1) == Some(Primitive::Id),
        Primitive::of(2) == Some(Primitive::Pop),
        Primitive::of(3) == Some(Primitive::Skip),
        Primitive::of(4) == Some(Primitive::Close),
        Primitive::of(5) == Some(Primitive::IsRib),
        Primitive::of(6) == Some(Primitive::Field0),
        Primitive::of(7) == Some(Primitive::Field1),
        Primitive::of(8) == Some(Primitive::Field2),
        Primitive::of(9) == Some(Primitive::SetField0),
        Primitive::of(10) == Some(Primitive::SetField1),
        Primitive::of(11) == Some(Primitive::SetField2),
        Primitive::of(12) == Some(Primitive::Equal),
        Primitive::of(13) == Some(Primitive::LessThan),
        Primitive::of(14) == Some(Primitive::Add),
        Primitive::of(15) == Some(Primitive::Subtract),
        Primitive::of(16) == Some(Primitive::Multiply),
        Primitive::of(17) == Some(Primitive::Divide),
        Primitive::of(18) == Some(Primitive::GetC),
        Primitive::of(19) == Some(Primitive::PutC),
        forall|number: u64| number >= 20 ==> #[trigger] Primitive::of(number) is None,
        forall|primitive: Primitive| #[trigger] primitive.number() < 20,
{
    lemma_primitive_of(Primitive::Rib);
    lemma_primitive_of(Primitive::Id);
    lemma_primitive_of(Primitive::Pop);
    lemma_primitive_of(Primitive::Skip);
    lemma_primitive_of(Primitive::Close);
    lemma_primitive_of(Primitive::IsRib);
    lemma_primitive_of(Primitive::Field0);
    lemma_primitive_of(Primitive::Field1);
    lemma_primitive_of(Primitive::Field2);
    lemma_primitive_of(Primitive::SetField0);
    lemma_primitive_of(Primitive::SetField1);
    lemma_primitive_of(Primitive::SetField2);
    lemma_primitive_of(Primitive::Equal);
    lemma_primitive_of(Primitive::LessThan);
    lemma_primitive_of(Primitive::Add);
    lemma_primitive_of(Primitive::Subtract);
    lemma_primitive_of(Primitive::Multiply);
    lemma_primitive_of(Primitive::Divide);
    lemma_primitive_of(Primitive::GetC);
    lemma_primitive_of(Primitive::PutC);
}

} // verus!
