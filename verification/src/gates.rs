//! Gate types and the columns of the constraint system.

use vstd::prelude::*;

verus! {

/// The concrete circuit gates.
#[derive(Clone, Copy, Debug, PartialEq, Eq, Structural)]
pub enum GateType {
    Zero,
    Generic,
    Poseidon,
    CompleteAdd,
    VarBaseMul,
    EndoMul,
    EndoMulScalar,
    Lookup,
    RangeCheck0,
    RangeCheck1,
    ForeignFieldAdd,
    ForeignFieldMul,
    Xor16,
    Rot64,
}

impl GateType {
    /// The number, by declaration order.
    pub open spec fn number(self) -> int {
        match self {
            GateType::Zero => 0,
            GateType::Generic => 1,
            GateType::Poseidon => 2,
            GateType::CompleteAdd => 3,
            GateType::VarBaseMul => 4,
            GateType::EndoMul => 5,
            GateType::EndoMulScalar => 6,
            GateType::Lookup => 7,
            GateType::RangeCheck0 => 8,
            GateType::RangeCheck1 => 9,
            GateType::ForeignFieldAdd => 10,
            GateType::ForeignFieldMul => 11,
            GateType::Xor16 => 12,
            GateType::Rot64 => 13,
        }
    }
}

/// The kind of row with the given number. Only concrete kinds have one.
pub fn gate_type_of_u32(t: u32) -> (gate: GateType)
    requires
        t < 14,
    ensures
        gate.number() == t,
{
    match t {
        0 => GateType::Zero,
        1 => GateType::Generic,
        2 => GateType::Poseidon,
        3 => GateType::CompleteAdd,
        4 => GateType::VarBaseMul,
        5 => GateType::EndoMul,
        6 => GateType::EndoMulScalar,
        7 => GateType::Lookup,
        8 => GateType::RangeCheck0,
        9 => GateType::RangeCheck1,
        10 => GateType::ForeignFieldAdd,
        11 => GateType::ForeignFieldMul,
        12 => GateType::Xor16,
        _ => GateType::Rot64,
    }
}

/// Two gates with the same number are the same gate.
pub proof fn gate_numbers_are_distinct(a: GateType, b: GateType)
    requires
        a.number() == b.number(),
    ensures
        a == b,
{
}

/// A column of the constraint system, as the linearization names it.
#[derive(Clone, Copy, Debug, PartialEq, Eq, Structural)]
pub enum Column {
    /// A witness column.
    Witness(usize),
    /// The permutation aggregation.
    Z,
    /// A gate's selector.
    Index(GateType),
    /// A coefficient column.
    Coefficient(usize),
    /// A permutation column.
    Permutation(usize),
}

/// The row a cell is read at.
#[derive(Clone, Copy, Debug, PartialEq, Eq, Structural)]
pub enum CurrOrNext {
    Curr,
    Next,
}

/// The numbers follow the order of the gates, from zero.
pub proof fn gates_are_numbered_in_order()
    ensures
        GateType::Zero.number() == 0,
        GateType::Generic.number() == 1,
        GateType::Poseidon.number() == 2,
        GateType::CompleteAdd.number() == 3,
        GateType::VarBaseMul.number() == 4,
        GateType::EndoMul.number() == 5,
        GateType::EndoMulScalar.number() == 6,
        GateType::Lookup.number() == 7,
        GateType::RangeCheck0.number() == 8,
        GateType::RangeCheck1.number() == 9,
        GateType::ForeignFieldAdd.number() == 10,
        GateType::ForeignFieldMul.number() == 11,
        GateType::Xor16.number() == 12,
        GateType::Rot64.number() == 13,
{
}

} // verus!
