//! The decision table: which combination of the children's costs prices
//! an interior node whose value is not the wanted one.

use vstd::prelude::*;
use crate::cost::{both, least, one_more};
use crate::gate::Gate;

verus! {

/// How the cost of an interior node is made of the costs `a` and `b` that
/// its left and right child need to reach the wanted value.
#[derive(Clone, Copy, Debug, PartialEq, Eq, Structural)]
pub enum Combinator {
    /// Both children must change: `a + b`.
    Sum,
    /// Either child may change: the smaller of `a` and `b`.
    Least,
    /// The operator is exchanged and one child changes: one more than the
    /// smaller of `a` and `b`.
    LeastPlusOne,
    /// Exchanging the operator is enough: `1`.
    One,
    /// Only the left child has to change: `a`.
    Left,
    /// Only the right child has to change: `b`.
    Right,
}

impl Combinator {
    /// The cost that the combinator makes of `a` and `b`.
    pub open spec fn cost(self, a: Option<nat>, b: Option<nat>) -> Option<nat> {
        match self {
            Combinator::Sum => both(a, b),
            Combinator::Least => least(a, b),
            Combinator::LeastPlusOne => one_more(least(a, b)),
            Combinator::One => Some(1),
            Combinator::Left => a,
            Combinator::Right => b,
        }
    }

    /// Whether the combinator needs the left child's cost.
    pub open spec fn asks_left(self) -> bool {
        self != Combinator::One && self != Combinator::Right
    }

    /// Whether the combinator needs the right child's cost.
    pub open spec fn asks_right(self) -> bool {
        self != Combinator::One && self != Combinator::Left
    }

    /// The combinator with the roles of the two children exchanged.
    pub open spec fn mirrored(self) -> Combinator {
        match self {
            Combinator::Left => Combinator::Right,
            Combinator::Right => Combinator::Left,
            other => other,
        }
    }
}

/// The table's row for a node with the given `changeable` flag and gate,
/// whose children have the values `l` and `r`, when `desired` is wanted.
/// The rows that are missing are those of nodes whose value is `desired`
/// already.
pub open spec fn row(changeable: bool, desired: bool, gate: Gate, l: bool, r: bool) -> Option<
    Combinator,
> {
    if !changeable {
        match (desired, gate, l, r) {
            (false, Gate::Or, true, true) => Some(Combinator::Sum),
            (false, Gate::Or, false, true) => Some(Combinator::Right),
            (false, Gate::Or, true, false) => Some(Combinator::Left),
            (true, Gate::Or, false, false) => Some(Combinator::Least),
            (true, Gate::And, false, false) => Some(Combinator::Sum),
            (true, Gate::And, true, false) => Some(Combinator::Right),
            (true, Gate::And, false, true) => Some(Combinator::Left),
            (false, Gate::And, true, true) => Some(Combinator::Least),
            _ => None,
        }
    } else {
        match (desired, gate, l, r) {
            (false, Gate::Or, false, _) => Some(Combinator::One),
            (false, Gate::Or, _, false) => Some(Combinator::One),
            (true, Gate::Or, false, false) => Some(Combinator::Least),
            (false, Gate::Or, true, true) => Some(Combinator::LeastPlusOne),
            (true, Gate::And, true, _) => Some(Combinator::One),
            (true, Gate::And, _, true) => Some(Combinator::One),
            (false, Gate::And, true, true) => Some(Combinator::Least),
            (true, Gate::And, false, false) => Some(Combinator::LeastPlusOne),
            _ => None,
        }
    }
}

/// The cost that the table gives an interior node from its children's
/// values `l` and `r` and their costs `a` and `b` of reaching `desired`;
/// `None` also where the table has no row.
pub open spec fn table(
    changeable: bool,
    desired: bool,
    gate: Gate,
    l: bool,
    r: bool,
    a: Option<nat>,
    b: Option<nat>,
) -> Option<nat> {
    match row(changeable, desired, gate, l, r) {
        Some(combinator) => combinator.cost(a, b),
        None => None,
    }
}

/// The table in short, for a node whose value differs from `desired`:
/// where one child with the wanted value is enough for the operator (OR
/// wants true, AND wants false), the cheaper child; otherwise both
/// children, or, at a changeable node, the cheaper child and one more for
/// exchanging the operator.
pub open spec fn short_table(
    changeable: bool,
    desired: bool,
    gate: Gate,
    a: Option<nat>,
    b: Option<nat>,
) -> Option<nat> {
    if (gate == Gate::Or) == desired {
        least(a, b)
    } else if changeable {
        one_more(least(a, b))
    } else {
        both(a, b)
    }
}

/// Looks up the table's row for a node whose value differs from `desired`.
pub fn select(changeable: bool, desired: bool, gate: Gate, l: bool, r: bool) -> (out: Combinator)
    requires
        gate.apply(l, r) != desired,
    ensures
        row(changeable, desired, gate, l, r) == Some(out),
{
    if changeable {
        match (desired, gate, l, r) {
            (false, Gate::Or, false, _) => Combinator::One,
            (false, Gate::Or, _, false) => Combinator::One,
            (true, Gate::Or, false, false) => Combinator::Least,
            (false, Gate::Or, true, true) => Combinator::LeastPlusOne,
            (true, Gate::And, true, _) => Combinator::One,
            (true, Gate::And, _, true) => Combinator::One,
            (false, Gate::And, true, true) => Combinator::Least,
            (true, Gate::And, false, false) => Combinator::LeastPlusOne,
            _ => unreached(),
        }
    } else {
        match (desired, gate, l, r) {
            (false, Gate::Or, true, true) => Combinator::Sum,
            (false, Gate::Or, false, true) => Combinator::Right,
            (false, Gate::Or, true, false) => Combinator::Left,
            (true, Gate::Or, false, false) => Combinator::Least,
            (true, Gate::And, false, false) => Combinator::Sum,
            (true, Gate::And, true, false) => Combinator::Right,
            (true, Gate::And, false, true) => Combinator::Left,
            (false, Gate::And, true, true) => Combinator::Least,
            _ => unreached(),
        }
    }
}

/// The table has a row wherever the node's value differs from the wanted
/// one.
pub proof fn lemma_row_present(changeable: bool, desired: bool, gate: Gate, l: bool, r: bool)
    requires
        gate.apply(l, r) != desired,
    ensures
        row(changeable, desired, gate, l, r) is Some,
{
}

/// Exchanging the children exchanges the roles in the row, and leaves the
/// cost as it was.
pub proof fn lemma_table_symmetric(
    changeable: bool,
    desired: bool,
    gate: Gate,
    l: bool,
    r: bool,
    a: Option<nat>,
    b: Option<nat>,
)
    ensures
        row(changeable, desired, gate, r, l) == match row(changeable, desired, gate, l, r) {
            Some(combinator) => Some(combinator.mirrored()),
            None => None,
        },
        table(changeable, desired, gate, r, l, b, a) == table(changeable, desired, gate, l, r, a, b),
{
}

} // verus!
