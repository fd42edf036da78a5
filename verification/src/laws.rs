//! What holds of evaluation and of the least number of changes on every
//! tree.

use vstd::prelude::*;
use crate::gate::Gate;
use crate::rule::{lemma_table_symmetric, short_table};
use crate::tree::Node;

verus! {

impl Node {
    /// The node with its two children exchanged.
    pub open spec fn swapped(self) -> Node {
        match self {
            Node::Leaf { .. } => self,
            Node::Interior { gate, changeable, left, right, cached_value } => Node::Interior {
                gate,
                changeable,
                left: right,
                right: left,
                cached_value,
            },
        }
    }

    /// The tree with the children exchanged at every interior node.
    pub open spec fn mirrored(self) -> Node
        decreases self,
    {
        match self {
            Node::Leaf { .. } => self,
            Node::Interior { gate, changeable, left, right, cached_value } => Node::Interior {
                gate,
                changeable,
                left: Box::new(right.mirrored()),
                right: Box::new(left.mirrored()),
                cached_value,
            },
        }
    }
}

/// A leaf evaluates to its value, with or without regard to memo slots.
pub proof fn lemma_leaf_evaluates_to_value(value: bool)
    ensures
        (Node::Leaf { value }).evaluation() == value,
        (Node::Leaf { value }).truth() == value,
        (Node::Leaf { value }).memoized() == (Node::Leaf { value }),
{
}

/// A tree that evaluates to the wanted value needs no change.
pub proof fn lemma_no_change_needed(node: Node, desired: bool)
    requires
        node.evaluation() == desired,
    ensures
        node.least_changes(desired) == Some(0nat),
{
}

/// With valid memo slots, evaluation is the value that gates and leaves
/// give.
pub proof fn lemma_sound_evaluation_is_truth(node: Node)
    requires
        node.memo_sound(),
    ensures
        node.evaluation() == node.truth(),
    decreases node,
{
    match node {
        Node::Leaf { .. } => {},
        Node::Interior { left, right, .. } => {
            lemma_sound_evaluation_is_truth(*left);
            lemma_sound_evaluation_is_truth(*right);
        },
    }
}

/// An interior node with valid memo slots evaluates to its gate applied to
/// the evaluations of its children: their conjunction for AND, their
/// disjunction for OR.
pub proof fn lemma_gate_rule(node: Node)
    requires
        node.memo_sound(),
        node is Interior,
    ensures
        node.evaluation() == node->gate.apply(node->left.evaluation(), node->right.evaluation()),
        node->gate == Gate::And ==> node.evaluation() == (node->left.evaluation()
            && node->right.evaluation()),
        node->gate == Gate::Or ==> node.evaluation() == (node->left.evaluation()
            || node->right.evaluation()),
{
}

/// Evaluating a second time changes nothing: neither the value nor the
/// tree.
pub proof fn lemma_eval_idempotent(node: Node)
    ensures
        node.memoized().evaluation() == node.evaluation(),
        node.memoized().memoized() == node.memoized(),
{
    crate::tree::lemma_memoized_keeps_evaluation(node);
}

/// Exchanging the two children of a node changes neither its evaluation
/// nor its least number of changes.
pub proof fn lemma_swap_symmetric(node: Node, desired: bool)
    ensures
        node.swapped().evaluation() == node.evaluation(),
        node.swapped().least_changes(desired) == node.least_changes(desired),
{
    match node {
        Node::Leaf { .. } => {},
        Node::Interior { gate, changeable, left, right, .. } => {
            lemma_table_symmetric(
                changeable,
                desired,
                gate,
                left.evaluation(),
                right.evaluation(),
                left.least_changes(desired),
                right.least_changes(desired),
            );
        },
    }
}

/// Exchanging the children everywhere in a tree changes neither its
/// evaluation nor its least number of changes.
pub proof fn lemma_mirror_symmetric(node: Node, desired: bool)
    ensures
        node.mirrored().evaluation() == node.evaluation(),
        node.mirrored().least_changes(desired) == node.least_changes(desired),
    decreases node,
{
    match node {
        Node::Leaf { .. } => {},
        Node::Interior { gate, changeable, left, right, .. } => {
            lemma_mirror_symmetric(*left, desired);
            lemma_mirror_symmetric(*right, desired);
            lemma_table_symmetric(
                changeable,
                desired,
                gate,
                left.evaluation(),
                right.evaluation(),
                left.least_changes(desired),
                right.least_changes(desired),
            );
        },
    }
}

/// A tree without a changeable node, itself included, that does not
/// evaluate to the wanted value cannot be brought to it.
pub proof fn lemma_impossible_without_changeable(node: Node, desired: bool)
    requires
        node.changeable_count() == 0,
        node.evaluation() != desired,
    ensures
        node.least_changes(desired) is None,
    decreases node,
{
    match node {
        Node::Leaf { .. } => {},
        Node::Interior { left, right, .. } => {
            if left.evaluation() != desired {
                lemma_impossible_without_changeable(*left, desired);
            }
            if right.evaluation() != desired {
                lemma_impossible_without_changeable(*right, desired);
            }
        },
    }
}

/// At an interior node with valid memo slots that does not evaluate to
/// the wanted value, the table's entry is the short table's: the
/// children's values need not be looked at, because a child that has the
/// wanted value costs nothing.
pub proof fn lemma_table_in_short(node: Node, desired: bool)
    requires
        node.memo_sound(),
        node is Interior,
        node.evaluation() != desired,
    ensures
        node.least_changes(desired) == short_table(
            node->changeable,
            desired,
            node->gate,
            node->left.least_changes(desired),
            node->right.least_changes(desired),
        ),
{
}

} // verus!
