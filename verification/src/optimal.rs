//! Why the decision table is right: its answer is the least number of
//! changeable nodes whose operators have to be exchanged so that the tree
//! takes the wanted value.

use vstd::prelude::*;
use crate::gate::Gate;
use crate::laws::lemma_sound_evaluation_is_truth;
use crate::rule::Combinator;
use crate::tree::Node;

verus! {

impl Gate {
    /// The other operator.
    pub open spec fn other(self) -> Gate {
        match self {
            Gate::And => Gate::Or,
            Gate::Or => Gate::And,
        }
    }
}

impl Node {
    /// Whether `to` is this tree with the operators of some of its
    /// changeable nodes exchanged. Memo slots are not looked at.
    pub open spec fn reworked(self, to: Node) -> bool
        decreases self,
    {
        match (self, to) {
            (Node::Leaf { value }, Node::Leaf { value: value1 }) => value == value1,
            (
                Node::Interior { gate, changeable, left, right, .. },
                Node::Interior {
                    gate: gate1,
                    changeable: changeable1,
                    left: left1,
                    right: right1,
                    ..
                },
            ) => {
                &&& changeable == changeable1
                &&& (gate == gate1 || changeable)
                &&& left.reworked(*left1)
                &&& right.reworked(*right1)
            },
            _ => false,
        }
    }

    /// The number of nodes at which the operators of this tree and of `to`
    /// differ.
    pub open spec fn distance(self, to: Node) -> nat
        decreases self,
    {
        match (self, to) {
            (
                Node::Interior { gate, left, right, .. },
                Node::Interior { gate: gate1, left: left1, right: right1, .. },
            ) => (if gate == gate1 {
                0nat
            } else {
                1nat
            }) + left.distance(*left1) + right.distance(*right1),
            _ => 0,
        }
    }

    /// A cheapest reworking of this tree that takes the value `desired`,
    /// where there is one: the tree itself if it evaluates to `desired`,
    /// and otherwise what the table's row says, with the cheaper child
    /// reworked where either would do.
    pub open spec fn cheapest(self, desired: bool) -> Node
        decreases self,
    {
        if self.evaluation() == desired {
            self
        } else {
            match self {
                Node::Leaf { .. } => self,
                Node::Interior { gate, changeable, left, right, cached_value } => {
                    let a = left.least_changes(desired);
                    let b = right.least_changes(desired);
                    let first = a is Some && (b matches Some(y) ==> a->0 <= y);
                    let row = crate::rule::row(
                        changeable,
                        desired,
                        gate,
                        left.evaluation(),
                        right.evaluation(),
                    );
                    let exchange = row == Some(Combinator::One) || row == Some(
                        Combinator::LeastPlusOne,
                    );
                    let rework_left = row == Some(Combinator::Sum) || row == Some(Combinator::Left)
                        || ((row == Some(Combinator::Least) || row == Some(
                        Combinator::LeastPlusOne,
                    )) && first);
                    let rework_right = row == Some(Combinator::Sum) || row == Some(
                        Combinator::Right,
                    ) || ((row == Some(Combinator::Least) || row == Some(
                        Combinator::LeastPlusOne,
                    )) && !first);
                    Node::Interior {
                        gate: if exchange {
                            gate.other()
                        } else {
                            gate
                        },
                        changeable,
                        left: if rework_left {
                            Box::new(left.cheapest(desired))
                        } else {
                            left
                        },
                        right: if rework_right {
                            Box::new(right.cheapest(desired))
                        } else {
                            right
                        },
                        cached_value,
                    }
                },
            }
        }
    }
}

/// A tree is a reworking of itself, at distance zero.
pub proof fn lemma_reworked_reflexive(node: Node)
    ensures
        node.reworked(node),
        node.distance(node) == 0,
    decreases node,
{
    match node {
        Node::Leaf { .. } => {},
        Node::Interior { left, right, .. } => {
            lemma_reworked_reflexive(*left);
            lemma_reworked_reflexive(*right);
        },
    }
}

/// A tree that does not evaluate to the wanted value needs at least one
/// change.
pub proof fn lemma_change_needed(node: Node, desired: bool)
    requires
        node.evaluation() != desired,
    ensures
        node.least_changes(desired) matches Some(m) ==> m >= 1,
    decreases node,
{
    match node {
        Node::Leaf { .. } => {},
        Node::Interior { left, right, .. } => {
            if left.evaluation() != desired {
                lemma_change_needed(*left, desired);
            }
            if right.evaluation() != desired {
                lemma_change_needed(*right, desired);
            }
        },
    }
}

/// The answer can be had: where the least number of changes is `m`, the
/// tree has a reworking with the wanted value in which exactly `m`
/// operators are exchanged.
pub proof fn lemma_answer_is_achieved(node: Node, desired: bool)
    requires
        node.memo_sound(),
        node.least_changes(desired) is Some,
    ensures
        node.reworked(node.cheapest(desired)),
        node.cheapest(desired).truth() == desired,
        node.distance(node.cheapest(desired)) == node.least_changes(desired)->0,
    decreases node,
{
    lemma_sound_evaluation_is_truth(node);
    lemma_reworked_reflexive(node);
    if node.evaluation() != desired {
        match node {
            Node::Leaf { .. } => {},
            Node::Interior { left, right, .. } => {
                lemma_sound_evaluation_is_truth(*left);
                lemma_sound_evaluation_is_truth(*right);
                lemma_reworked_reflexive(*left);
                lemma_reworked_reflexive(*right);
                if left.least_changes(desired) is Some {
                    lemma_answer_is_achieved(*left, desired);
                }
                if right.least_changes(desired) is Some {
                    lemma_answer_is_achieved(*right, desired);
                }
            },
        }
    }
}

/// The answer cannot be beaten: every reworking of the tree that has the
/// wanted value exchanges at least as many operators as the least number
/// of changes, which is then present.
pub proof fn lemma_answer_is_least(node: Node, desired: bool, to: Node)
    requires
        node.memo_sound(),
        node.reworked(to),
        to.truth() == desired,
    ensures
        node.least_changes(desired) matches Some(m) && m <= node.distance(to),
    decreases node,
{
    lemma_sound_evaluation_is_truth(node);
    if node.evaluation() != desired {
        match (node, to) {
            (
                Node::Interior { left, right, .. },
                Node::Interior { left: left1, right: right1, .. },
            ) => {
                lemma_sound_evaluation_is_truth(*left);
                lemma_sound_evaluation_is_truth(*right);
                if left1.truth() == desired {
                    lemma_answer_is_least(*left, desired, *left1);
                }
                if right1.truth() == desired {
                    lemma_answer_is_least(*right, desired, *right1);
                }
                if left.evaluation() != desired {
                    lemma_change_needed(*left, desired);
                }
                if right.evaluation() != desired {
                    lemma_change_needed(*right, desired);
                }
            },
            _ => {},
        }
    }
}

/// Where the table finds no way, there is none: no reworking of the tree
/// has the wanted value.
pub proof fn lemma_impossible_is_impossible(node: Node, desired: bool, to: Node)
    requires
        node.memo_sound(),
        node.least_changes(desired) is None,
        node.reworked(to),
    ensures
        to.truth() != desired,
{
    if to.truth() == desired {
        lemma_answer_is_least(node, desired, to);
    }
}

} // verus!
