//! The two gates and how they combine their inputs.

use vstd::prelude::*;

verus! {

/// The operator of an interior node.
#[derive(Clone, Copy, Debug, PartialEq, Eq, Structural)]
pub enum Gate {
    And,
    Or,
}

impl Gate {
    /// What this operator yields on two inputs.
    pub open spec fn apply(self, left: bool, right: bool) -> bool {
        match self {
            Gate::And => left && right,
            Gate::Or => left || right,
        }
    }

    /// The operator that a code stands for: `1` is AND, every other code is OR.
    pub open spec fn of_code(code: usize) -> Gate {
        if code == 1 {
            Gate::And
        } else {
            Gate::Or
        }
    }

    /// Combines two inputs.
    pub fn combine(self, left: bool, right: bool) -> (out: bool)
        ensures
            out == self.apply(left, right),
    {
        match self {
            Gate::And => left && right,
            Gate::Or => left || right,
        }
    }

    /// Decodes a gate: `1` is AND, every other code is OR.
    pub fn from_code(code: usize) -> (gate: Gate)
        ensures
            gate == Gate::of_code(code),
    {
        if code == 1 {
            Gate::And
        } else {
            Gate::Or
        }
    }
}

/// The boolean that a code stands for: `1` is true, every other code is false.
pub open spec fn flag_of_code(code: usize) -> bool {
    code == 1
}

/// Decodes a boolean: `1` is true, every other code is false.
pub fn flag_from_code(code: usize) -> (flag: bool)
    ensures
        flag == flag_of_code(code),
{
    code == 1
}

} // verus!
