//! The variables of a constraint system and their total order.

use vstd::prelude::*;
use core::cmp::Ordering;
use vstd::std_specs::cmp::PartialOrdSpecImpl;

verus! {

/// A wire of the circuit.
///
/// Variables are ordered by kind, `Committed` first and `One` last, and
/// within a kind by ascending index.
#[derive(Copy, Clone, Debug, PartialEq, Eq, Ord, Hash, Structural)]
pub enum Variable {
    /// An external input, given by a commitment.
    Committed(usize),
    /// The left input of a multiplication gate.
    MultiplierLeft(usize),
    /// The right input of a multiplication gate.
    MultiplierRight(usize),
    /// The output of a multiplication gate.
    MultiplierOutput(usize),
    /// The constant 1.
    One(),
}

impl Variable {
    /// The place of the variable's kind in the order.
    pub open spec fn rank(self) -> nat {
        match self {
            Variable::Committed(_) => 0,
            Variable::MultiplierLeft(_) => 1,
            Variable::MultiplierRight(_) => 2,
            Variable::MultiplierOutput(_) => 3,
            Variable::One() => 4,
        }
    }

    /// The index that the variable carries; the constant carries none and
    /// counts as 0.
    pub open spec fn index(self) -> nat {
        match self {
            Variable::Committed(i) => i as nat,
            Variable::MultiplierLeft(i) => i as nat,
            Variable::MultiplierRight(i) => i as nat,
            Variable::MultiplierOutput(i) => i as nat,
            Variable::One() => 0,
        }
    }

    /// The strict total order on variables: by kind, then by index.
    pub open spec fn precedes(self, other: Variable) -> bool {
        self.rank() < other.rank() || (self.rank() == other.rank() && self.index()
            < other.index())
    }

    /// One number per variable, ascending in the order of the variables.
    pub open spec fn key(self) -> nat {
        self.rank() * 0x1_0000_0000_0000_0000 + self.index()
    }

    /// The order of the keys is the order of the variables, and no two
    /// variables share a key.
    pub proof fn lemma_key_order(self, other: Variable)
        ensures
            self.precedes(other) <==> self.key() < other.key(),
            self.key() == other.key() <==> self == other,
    {
        assert(self.index() < 0x1_0000_0000_0000_0000);
        assert(other.index() < 0x1_0000_0000_0000_0000);
    }

    /// `precedes` is a strict total order: of two variables exactly one
    /// precedes the other unless they are equal, and it is transitive.
    pub proof fn lemma_total_order(self, other: Variable, third: Variable)
        ensures
            !self.precedes(self),
            self != other ==> (self.precedes(other) <==> !other.precedes(self)),
            self.precedes(other) && other.precedes(third) ==> self.precedes(third),
    {
    }

    /// The key of the variable.
    pub fn sort_key(&self) -> (k: u128)
        ensures
            k == self.key(),
    {
        match self {
            Variable::Committed(i) => *i as u128,
            Variable::MultiplierLeft(i) => 0x1_0000_0000_0000_0000u128 + *i as u128,
            Variable::MultiplierRight(i) => 0x2_0000_0000_0000_0000u128 + *i as u128,
            Variable::MultiplierOutput(i) => 0x3_0000_0000_0000_0000u128 + *i as u128,
            Variable::One() => 0x4_0000_0000_0000_0000u128,
        }
    }
}

impl PartialOrd for Variable {
    /// Compares two variables in the order of the variables.
    fn partial_cmp(&self, other: &Variable) -> (r: Option<Ordering>) {
        let a = self.sort_key();
        let b = other.sort_key();
        proof {
            self.lemma_key_order(*other);
            other.lemma_key_order(*self);
        }
        if a < b {
            Some(Ordering::Less)
        } else if a == b {
            Some(Ordering::Equal)
        } else {
            Some(Ordering::Greater)
        }
    }
}

impl PartialOrdSpecImpl for Variable {
    open spec fn obeys_partial_cmp_spec() -> bool {
        true
    }

    open spec fn partial_cmp_spec(&self, other: &Variable) -> Option<Ordering> {
        if self.precedes(*other) {
            Some(Ordering::Less)
        } else if *self == *other {
            Some(Ordering::Equal)
        } else {
            Some(Ordering::Greater)
        }
    }
}

} // verus!
