//! A gate tree that owns its children, with a memo slot in every interior
//! node for the value of its subtree.

use vstd::prelude::*;
use crate::cost::{add_options, as_nat, inc_option, min_option, within};
use crate::rule::{row, select, table, Combinator};
use crate::gate::Gate;

verus! {

/// A node of an owned gate tree.
#[derive(Debug)]
pub enum Node {
    /// A fixed input.
    Leaf { value: bool },
    /// A gate over two subtrees. `changeable` says whether its operator may
    /// be exchanged for the other one at the price of one change.
    /// `cached_value` is empty until the node has been evaluated.
    Interior {
        gate: Gate,
        changeable: bool,
        left: Box<Node>,
        right: Box<Node>,
        cached_value: Option<bool>,
    },
}

impl Node {
    /// The value of the subtree as its gates and leaves give it, whatever
    /// the memo slots hold.
    pub open spec fn truth(self) -> bool
        decreases self,
    {
        match self {
            Node::Leaf { value } => value,
            Node::Interior { gate, left, right, .. } => gate.apply(left.truth(), right.truth()),
        }
    }

    /// The value that evaluation yields: a leaf's value, a filled memo
    /// slot's content, and otherwise its operator applied to the children's
    /// evaluations.
    pub open spec fn evaluation(self) -> bool
        decreases self,
    {
        match self {
            Node::Leaf { value } => value,
            Node::Interior { gate, left, right, cached_value, .. } => match cached_value {
                Some(v) => v,
                None => gate.apply(left.evaluation(), right.evaluation()),
            },
        }
    }

    /// Validity of the memo slots: each filled slot, anywhere in the
    /// subtree, holds its node's operator applied to the children's
    /// evaluations.
    pub open spec fn memo_sound(self) -> bool
        decreases self,
    {
        match self {
            Node::Leaf { .. } => true,
            Node::Interior { gate, left, right, cached_value, .. } => {
                &&& left.memo_sound()
                &&& right.memo_sound()
                &&& (cached_value matches Some(v) ==> v == gate.apply(
                    left.evaluation(),
                    right.evaluation(),
                ))
            },
        }
    }

    /// Whether the node's value can be read without evaluating anything: it
    /// is a leaf, or its memo slot is filled.
    pub open spec fn is_cached(self) -> bool {
        match self {
            Node::Leaf { .. } => true,
            Node::Interior { cached_value, .. } => cached_value is Some,
        }
    }

    /// Whether every interior node of the subtree has its memo slot filled.
    pub open spec fn fully_cached(self) -> bool
        decreases self,
    {
        match self {
            Node::Leaf { .. } => true,
            Node::Interior { left, right, cached_value, .. } => {
                &&& cached_value is Some
                &&& left.fully_cached()
                &&& right.fully_cached()
            },
        }
    }

    /// The same tree with every memo slot emptied.
    pub open spec fn erased(self) -> Node
        decreases self,
    {
        match self {
            Node::Leaf { value } => Node::Leaf { value },
            Node::Interior { gate, changeable, left, right, .. } => Node::Interior {
                gate,
                changeable,
                left: Box::new(left.erased()),
                right: Box::new(right.erased()),
                cached_value: None,
            },
        }
    }

    /// Whether `self` is `earlier` with some more memo slots filled, each
    /// new entry being the evaluation of its node.
    pub open spec fn fills(self, earlier: Node) -> bool
        decreases self,
    {
        match (self, earlier) {
            (Node::Leaf { value }, Node::Leaf { value: before }) => value == before,
            (
                Node::Interior { gate, changeable, left, right, cached_value },
                Node::Interior {
                    gate: gate0,
                    changeable: changeable0,
                    left: left0,
                    right: right0,
                    cached_value: cached0,
                },
            ) => {
                &&& gate == gate0
                &&& changeable == changeable0
                &&& left.fills(*left0)
                &&& right.fills(*right0)
                &&& (cached_value == cached0 || (cached0 is None && cached_value == Some(
                    earlier.evaluation(),
                )))
            },
            _ => false,
        }
    }

    /// The number of interior nodes in the subtree.
    pub open spec fn interior_count(self) -> nat
        decreases self,
    {
        match self {
            Node::Leaf { .. } => 0,
            Node::Interior { left, right, .. } => 1 + left.interior_count()
                + right.interior_count(),
        }
    }

    /// The number of changeable interior nodes in the subtree, the node
    /// itself included.
    pub open spec fn changeable_count(self) -> nat
        decreases self,
    {
        match self {
            Node::Leaf { .. } => 0,
            Node::Interior { changeable, left, right, .. } => (if changeable {
                1nat
            } else {
                0nat
            }) + left.changeable_count() + right.changeable_count(),
        }
    }

    /// The least number of changes after which the subtree evaluates to
    /// `desired`, or `None` where no changes achieve that: zero where the
    /// evaluation is `desired` already, nothing for a leaf that differs, and
    /// the decision table's entry for an interior node that differs.
    pub open spec fn least_changes(self, desired: bool) -> Option<nat>
        decreases self,
    {
        if self.evaluation() == desired {
            Some(0)
        } else {
            match self {
                Node::Leaf { .. } => None,
                Node::Interior { gate, changeable, left, right, .. } => table(
                    changeable,
                    desired,
                    gate,
                    left.evaluation(),
                    right.evaluation(),
                    left.least_changes(desired),
                    right.least_changes(desired),
                ),
            }
        }
    }

    /// The state in which `eval` leaves the tree: an interior node with an
    /// empty slot gets its evaluation stored, after its left child and,
    /// unless the left value decides the outcome, its right child were
    /// treated the same way. A leaf or a node with a filled slot stays.
    pub open spec fn memoized(self) -> Node
        decreases self,
    {
        match self {
            Node::Leaf { .. } => self,
            Node::Interior { gate, changeable, left, right, cached_value } => match cached_value {
                Some(_) => self,
                None => Node::Interior {
                    gate,
                    changeable,
                    left: Box::new(left.memoized()),
                    right: if left.evaluation() == (gate == Gate::Or) {
                        right
                    } else {
                        Box::new(right.memoized())
                    },
                    cached_value: Some(self.evaluation()),
                },
            },
        }
    }

    /// The state in which `min_changes` leaves the tree. The node itself is
    /// evaluated. If its value is not `desired`, both children are evaluated
    /// too, and each child whose cost the table's row needs is left in
    /// the state that its own search for `desired` gives.
    pub open spec fn settled(self, desired: bool) -> Node
        decreases self,
    {
        if self.evaluation() == desired {
            self.memoized()
        } else {
            match self {
                Node::Leaf { .. } => self,
                Node::Interior { gate, changeable, left, right, .. } => {
                    let found = row(
                        changeable,
                        desired,
                        gate,
                        left.evaluation(),
                        right.evaluation(),
                    );
                    Node::Interior {
                        gate,
                        changeable,
                        left: Box::new(
                            if found matches Some(c) && c.asks_left() {
                                left.settled(desired)
                            } else {
                                left.memoized()
                            },
                        ),
                        right: Box::new(
                            if found matches Some(c) && c.asks_right() {
                                right.settled(desired)
                            } else {
                                right.memoized()
                            },
                        ),
                        cached_value: Some(self.evaluation()),
                    }
                },
            }
        }
    }

    /// Reads the value of a leaf or of an interior node whose memo slot is
    /// filled.
    pub fn value(&self) -> (out: bool)
        requires
            self.is_cached(),
        ensures
            out == self.evaluation(),
            self is Leaf ==> out == self->value,
    {
        match self {
            Node::Leaf { value } => *value,
            Node::Interior { cached_value, .. } => cached_value.unwrap(),
        }
    }

    /// Evaluates the subtree, filling the memo slots of the interior nodes
    /// it has to visit.
    pub fn eval(&mut self) -> (out: bool)
        ensures
            out == old(self).evaluation(),
            *old(self) is Leaf ==> out == (*old(self))->value,
            *final(self) == old(self).memoized(),
            final(self).evaluation() == out,
            final(self).is_cached(),
        decreases *old(self),
    {
        proof {
            lemma_memoized_keeps_evaluation(*self);
        }
        match self {
            Node::Leaf { value } => *value,
            Node::Interior { gate, left, right, cached_value, .. } => match *cached_value {
                Some(v) => v,
                None => {
                    let l = left.eval();
                    let my_val = match *gate {
                        Gate::And => if l {
                            right.eval()
                        } else {
                            false
                        },
                        Gate::Or => if l {
                            true
                        } else {
                            right.eval()
                        },
                    };
                    *cached_value = Some(my_val);
                    my_val
                },
            },
        }
    }

    /// The least number of changes after which the subtree evaluates to
    /// `desired`, or `None` if no changes achieve that. Nodes visited on the
    /// way get their memo slots filled.
    pub fn min_changes(&mut self, desired: bool) -> (out: Option<usize>)
        requires
            old(self).memo_sound(),
            old(self).changeable_count() <= usize::MAX,
        ensures
            as_nat(out) == old(self).least_changes(desired),
            old(self).evaluation() == desired ==> out == Some(0usize),
            *final(self) == old(self).settled(desired),
            final(self).fills(*old(self)),
            final(self).memo_sound(),
            final(self).is_cached(),
        decreases old(self).interior_count(),
    {
        let ghost start = *self;
        let now = self.eval();
        let ghost mid = *self;
        proof {
            lemma_memoized_fills(start);
            lemma_fills_keeps(mid, start, desired);
        }
        if now == desired {
            return Some(0);
        }
        let out = match self {
            Node::Leaf { .. } => None,
            Node::Interior { gate, changeable, left, right, .. } => {
                let ghost l0 = **left;
                let ghost r0 = **right;
                let l = left.eval();
                let r = right.eval();
                let ghost l1 = **left;
                let ghost r1 = **right;
                proof {
                    lemma_memoized_fills(l0);
                    lemma_memoized_fills(r0);
                    lemma_fills_keeps(l1, l0, desired);
                    lemma_fills_keeps(r1, r0, desired);
                    lemma_fills_reflexive(l1);
                    lemma_fills_reflexive(r1);
                    lemma_least_changes_bounded(l1, desired);
                    lemma_least_changes_bounded(r1, desired);
                }
                let out = match select(*changeable, desired, *gate, l, r) {
                    Combinator::Sum => {
                        let a = left.min_changes(desired);
                        let b = right.min_changes(desired);
                        add_options(&a, &b)
                    },
                    Combinator::Least => {
                        let a = left.min_changes(desired);
                        let b = right.min_changes(desired);
                        min_option(&a, &b)
                    },
                    Combinator::LeastPlusOne => {
                        let a = left.min_changes(desired);
                        let b = right.min_changes(desired);
                        inc_option(&min_option(&a, &b))
                    },
                    Combinator::One => Some(1),
                    Combinator::Left => left.min_changes(desired),
                    Combinator::Right => right.min_changes(desired),
                };
                proof {
                    lemma_fills_transitive(**left, l1, l0);
                    lemma_fills_transitive(**right, r1, r0);
                    lemma_memoized_keeps_evaluation(*start->left);
                    lemma_memoized_keeps_evaluation(*start->right);
                    lemma_settled_after_memoized(*start->left, desired);
                    lemma_settled_after_memoized(*start->right, desired);
                    lemma_settled_after_memoized(l0, desired);
                    lemma_settled_after_memoized(r0, desired);
                }
                out
            },
        };
        proof {
            assert(self.fills(mid));
            lemma_fills_transitive(*self, mid, start);
            lemma_fills_keeps(*self, start, desired);
        }
        out
    }
}

/// Memoizing changes no evaluation, and leaves the node's value readable.
pub proof fn lemma_memoized_keeps_evaluation(node: Node)
    ensures
        node.memoized().evaluation() == node.evaluation(),
        node.memoized().is_cached(),
    decreases node,
{
    match node {
        Node::Leaf { .. } => {},
        Node::Interior { left, right, cached_value, .. } => {
            if cached_value is None {
                lemma_memoized_keeps_evaluation(*left);
                lemma_memoized_keeps_evaluation(*right);
            }
        },
    }
}

/// A tree fills itself.
pub proof fn lemma_fills_reflexive(node: Node)
    ensures
        node.fills(node),
    decreases node,
{
    match node {
        Node::Leaf { .. } => {},
        Node::Interior { left, right, .. } => {
            lemma_fills_reflexive(*left);
            lemma_fills_reflexive(*right);
        },
    }
}

/// Filling memo slots changes nothing that can be observed: the
/// evaluation, the tree below the slots, the counts, the least number of
/// changes, and the validity of the slots.
pub proof fn lemma_fills_keeps(later: Node, earlier: Node, desired: bool)
    requires
        later.fills(earlier),
    ensures
        later.evaluation() == earlier.evaluation(),
        later.erased() == earlier.erased(),
        later.changeable_count() == earlier.changeable_count(),
        later.interior_count() == earlier.interior_count(),
        later.least_changes(desired) == earlier.least_changes(desired),
        earlier.memo_sound() ==> later.memo_sound(),
    decreases later,
{
    match (later, earlier) {
        (Node::Interior { left, right, .. }, Node::Interior { left: left0, right: right0, .. }) => {
            lemma_fills_keeps(*left, *left0, desired);
            lemma_fills_keeps(*right, *right0, desired);
        },
        _ => {},
    }
}

/// Filling in two steps is filling.
pub proof fn lemma_fills_transitive(last: Node, middle: Node, first: Node)
    requires
        last.fills(middle),
        middle.fills(first),
    ensures
        last.fills(first),
    decreases last,
{
    match (last, middle, first) {
        (
            Node::Interior { left: left2, right: right2, .. },
            Node::Interior { left: left1, right: right1, .. },
            Node::Interior { left: left0, right: right0, .. },
        ) => {
            lemma_fills_transitive(*left2, *left1, *left0);
            lemma_fills_transitive(*right2, *right1, *right0);
            lemma_fills_keeps(middle, first, true);
        },
        _ => {},
    }
}

/// Evaluation only fills memo slots.
pub proof fn lemma_memoized_fills(node: Node)
    ensures
        node.memoized().fills(node),
    decreases node,
{
    match node {
        Node::Leaf { .. } => {},
        Node::Interior { left, right, cached_value, .. } => {
            lemma_fills_reflexive(*left);
            lemma_fills_reflexive(*right);
            if cached_value is None {
                lemma_memoized_fills(*left);
                lemma_memoized_fills(*right);
            }
        },
    }
}

/// No answer exceeds the number of changeable nodes in the subtree.
pub proof fn lemma_least_changes_bounded(node: Node, desired: bool)
    ensures
        within(node.least_changes(desired), node.changeable_count()),
    decreases node,
{
    match node {
        Node::Leaf { .. } => {},
        Node::Interior { left, right, .. } => {
            lemma_least_changes_bounded(*left, desired);
            lemma_least_changes_bounded(*right, desired);
        },
    }
}

/// The changeable nodes are among the interior nodes.
pub proof fn lemma_changeable_among_interior(node: Node)
    ensures
        node.changeable_count() <= node.interior_count(),
    decreases node,
{
    match node {
        Node::Leaf { .. } => {},
        Node::Interior { left, right, .. } => {
            lemma_changeable_among_interior(*left);
            lemma_changeable_among_interior(*right);
        },
    }
}

/// Searching after evaluating leaves the tree as searching alone does.
pub proof fn lemma_settled_after_memoized(node: Node, desired: bool)
    ensures
        node.memoized().settled(desired) == node.settled(desired),
        node.memoized().memoized() == node.memoized(),
    decreases node,
{
    lemma_memoized_keeps_evaluation(node);
    match node {
        Node::Leaf { .. } => {},
        Node::Interior { left, right, cached_value, .. } => {
            if cached_value is None {
                lemma_memoized_keeps_evaluation(*left);
                lemma_memoized_keeps_evaluation(*right);
                lemma_settled_after_memoized(*left, desired);
                lemma_settled_after_memoized(*right, desired);
            }
        },
    }
}

} // verus!
