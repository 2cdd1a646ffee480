//! Resource record types.

use vstd::prelude::*;

verus! {

/// A resource record type. The address types are told apart; any other keeps its number.
#[derive(Clone, Copy, Debug, PartialEq, Eq, Structural)]
pub enum RrType {
    A,
    AAAA,
    Other(u16),
}

impl RrType {
    /// The type of a number on the wire.
    pub open spec fn of_number(n: u16) -> RrType {
        if n == 1 {
            RrType::A
        } else if n == 28 {
            RrType::AAAA
        } else {
            RrType::Other(n)
        }
    }

    /// The number on the wire.
    pub open spec fn number(self) -> u16 {
        match self {
            RrType::A => 1,
            RrType::AAAA => 28,
            RrType::Other(n) => n,
        }
    }

    /// `Other` holds no number that has a variant of its own.
    pub open spec fn wf(self) -> bool {
        self == RrType::of_number(self.number())
    }

    pub fn from_u16(n: u16) -> (t: RrType)
        ensures
            t == RrType::of_number(n),
    {
        if n == 1 {
            RrType::A
        } else if n == 28 {
            RrType::AAAA
        } else {
            RrType::Other(n)
        }
    }

    pub fn to_u16(self) -> (n: u16)
        ensures
            n == self.number(),
    {
        match self {
            RrType::A => 1,
            RrType::AAAA => 28,
            RrType::Other(n) => n,
        }
    }
}

/// A number is found again in its type.
pub proof fn law_type_number_round_trip(n: u16)
    ensures
        RrType::of_number(n).number() == n,
        RrType::of_number(n).wf(),
{
}

} // verus!
