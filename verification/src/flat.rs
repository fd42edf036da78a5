//! A gate tree laid out in one shared sequence: the root at index 0 and
//! the children of the node at index `i` at `2i + 1` and `2i + 2`.

use vstd::prelude::*;
use crate::cost::{add_options, as_nat, inc_option, min_option};
use crate::gate::Gate;
use crate::rule::{select, Combinator};
use crate::tree;
use crate::tree::lemma_least_changes_bounded;

verus! {

/// A node of the flat layout: what it is, without its links.
#[derive(Clone, Copy, Debug, PartialEq, Eq, Structural)]
pub enum Node {
    /// A fixed input.
    Leaf { value: bool },
    /// A gate over the two nodes that the layout makes its children.
    Interior { gate: Gate, changeable: bool },
}

/// Whether every interior node of the sequence has both children inside it.
pub open spec fn well_linked(nodes: Seq<Node>) -> bool {
    forall|i: int| 0 <= i < nodes.len() && (#[trigger] nodes[i]) is Interior ==> 2 * i + 2 < nodes.len()
}

/// Whether the sequence is a complete tree in level order: its length is
/// odd, the first half of it are interior nodes and the rest are leaves.
pub open spec fn heap_shaped(nodes: Seq<Node>) -> bool {
    &&& nodes.len() % 2 == 1
    &&& forall|i: int|
        0 <= i < nodes.len() ==> ((#[trigger] nodes[i]) is Interior <==> i < nodes.len() / 2)
}

/// Tests whether the nodes form a complete tree in level order.
pub fn is_heap_shaped(nodes: &[Node]) -> (out: bool)
    ensures
        out == heap_shaped(nodes@),
{
    let n = nodes.len();
    if n % 2 == 0 {
        return false;
    }
    let half = n / 2;
    let mut i: usize = 0;
    while i < n
        invariant
            n == nodes@.len(),
            n % 2 == 1,
            half == n / 2,
            i <= n,
            forall|j: int| 0 <= j < i ==> ((#[trigger] nodes@[j]) is Interior <==> j < half),
        decreases n - i,
    {
        let interior = match nodes[i] {
            Node::Interior { .. } => true,
            Node::Leaf { .. } => false,
        };
        if interior != (i < half) {
            return false;
        }
        i += 1;
    }
    true
}

/// The tree below index `i`, with empty memo slots. Outside the sequence
/// stands a leaf that holds `false`.
pub open spec fn subtree(nodes: Seq<Node>, i: int) -> tree::Node
    decreases
        (if i < nodes.len() {
            nodes.len() - i
        } else {
            0
        }),
{
    if 0 <= i && i < nodes.len() {
        match nodes[i] {
            Node::Leaf { value } => tree::Node::Leaf { value },
            Node::Interior { gate, changeable } => tree::Node::Interior {
                gate,
                changeable,
                left: Box::new(subtree(nodes, 2 * i + 1)),
                right: Box::new(subtree(nodes, 2 * i + 2)),
                cached_value: None,
            },
        }
    } else {
        tree::Node::Leaf { value: false }
    }
}

/// A position in a shared, immutable sequence of nodes.
#[derive(Clone, Copy, Debug)]
pub struct NodeRef<'a> {
    pub index: usize,
    pub node_list: &'a [Node],
}

impl<'a> View for NodeRef<'a> {
    type V = tree::Node;

    /// The tree below the position.
    open spec fn view(&self) -> tree::Node {
        subtree(self.node_list@, self.index as int)
    }
}

impl<'a> NodeRef<'a> {
    /// Validity: the position lies inside the sequence, and every interior
    /// node of the sequence has both its children.
    pub open spec fn wf(self) -> bool {
        &&& self.index < self.node_list@.len()
        &&& well_linked(self.node_list@)
    }

    /// The root position of `nodes`.
    pub fn new(nodes: &'a [Node]) -> (root: Box<NodeRef<'a>>)
        ensures
            root.index == 0,
            root.node_list@ == nodes@,
    {
        Box::new(NodeRef { index: 0, node_list: nodes })
    }

    /// The position one level up; the root has none.
    pub fn parent(&self) -> (up: Option<Box<NodeRef<'a>>>)
        ensures
            self.index == 0 ==> up is None,
            self.index > 0 ==> up is Some && up->0.index == (self.index - 1) / 2
                && up->0.node_list@ == self.node_list@,
            self.wf() && up is Some ==> up->0.wf(),
    {
        if self.index == 0 {
            None
        } else {
            Some(Box::new(NodeRef { index: (self.index - 1) / 2, node_list: self.node_list }))
        }
    }

    /// The position of the left child, if the sequence reaches that far.
    pub fn left_child(&self) -> (down: Option<Box<NodeRef<'a>>>)
        ensures
            down is Some <==> 2 * self.index + 1 < self.node_list@.len(),
            down is Some ==> down->0.index == 2 * self.index + 1 && down->0.node_list@
                == self.node_list@,
            self.wf() && down is Some ==> down->0.wf(),
    {
        if self.index < self.node_list.len() / 2 {
            Some(Box::new(NodeRef { index: 1 + 2 * self.index, node_list: self.node_list }))
        } else {
            None
        }
    }

    /// The position of the right child, if the sequence reaches that far.
    pub fn right_child(&self) -> (down: Option<Box<NodeRef<'a>>>)
        ensures
            down is Some <==> 2 * self.index + 2 < self.node_list@.len(),
            down is Some ==> down->0.index == 2 * self.index + 2 && down->0.node_list@
                == self.node_list@,
            self.wf() && down is Some ==> down->0.wf(),
    {
        let len = self.node_list.len();
        if len > 0 && self.index < (len - 1) / 2 {
            Some(Box::new(NodeRef { index: 2 + 2 * self.index, node_list: self.node_list }))
        } else {
            None
        }
    }

    /// Evaluates the tree below the position.
    pub fn eval(&self) -> (out: bool)
        requires
            self.wf(),
        ensures
            out == self@.evaluation(),
            out == self@.truth(),
            self.node_list@[self.index as int] is Leaf ==> out == self.node_list@[self.index as int]->value,
        decreases self.node_list@.len() - self.index,
    {
        let node = &self.node_list[self.index];
        match *node {
            Node::Leaf { value } => value,
            Node::Interior { gate: Gate::And, .. } => {
                self.left_child().unwrap().eval() && self.right_child().unwrap().eval()
            },
            Node::Interior { gate: Gate::Or, .. } => {
                self.left_child().unwrap().eval() || self.right_child().unwrap().eval()
            },
        }
    }

    /// The least number of changes after which the tree below the position
    /// evaluates to `desired`, or `None` if no changes achieve that.
    pub fn min_changes(&self, desired: bool) -> (out: Option<usize>)
        requires
            self.wf(),
        ensures
            as_nat(out) == self@.least_changes(desired),
            self@.evaluation() == desired ==> out == Some(0usize),
        decreases self.node_list@.len() - self.index,
    {
        let cur_val = self.eval();
        if cur_val == desired {
            return Some(0);
        }
        let node = &self.node_list[self.index];
        match *node {
            Node::Leaf { .. } => None,
            Node::Interior { gate, changeable } => {
                let left = self.left_child().unwrap();
                let right = self.right_child().unwrap();
                let left_val = left.eval();
                let right_val = right.eval();
                proof {
                    lemma_interior_count_bounded(self.node_list@, self.index as int);
                    tree::lemma_changeable_among_interior(left@);
                    tree::lemma_changeable_among_interior(right@);
                    lemma_least_changes_bounded(left@, desired);
                    lemma_least_changes_bounded(right@, desired);
                }
                match select(changeable, desired, gate, left_val, right_val) {
                    Combinator::Sum => add_options(
                        &left.min_changes(desired),
                        &right.min_changes(desired),
                    ),
                    Combinator::Least => min_option(
                        &left.min_changes(desired),
                        &right.min_changes(desired),
                    ),
                    Combinator::LeastPlusOne => inc_option(
                        &min_option(&left.min_changes(desired), &right.min_changes(desired)),
                    ),
                    Combinator::One => Some(1),
                    Combinator::Left => left.min_changes(desired),
                    Combinator::Right => right.min_changes(desired),
                }
            },
        }
    }
}

/// A complete tree in level order has every child that it needs.
pub proof fn lemma_heap_shaped_is_well_linked(nodes: Seq<Node>)
    requires
        heap_shaped(nodes),
    ensures
        well_linked(nodes),
        nodes.len() > 0,
{
}

/// The interior nodes below index `i` are at most `(len + 1) / (i + 1) - 1`,
/// and so never more than the sequence is long.
pub proof fn lemma_interior_count_bounded(nodes: Seq<Node>, i: int)
    requires
        well_linked(nodes),
        0 <= i < nodes.len(),
    ensures
        (subtree(nodes, i).interior_count() + 1) * (i + 1) <= nodes.len() + 1,
        subtree(nodes, i).interior_count() <= nodes.len(),
    decreases nodes.len() - i,
{
    let n = nodes.len() as int;
    let count = subtree(nodes, i).interior_count() as int;
    match nodes[i] {
        Node::Leaf { .. } => {
            assert(count == 0);
        },
        Node::Interior { .. } => {
            lemma_interior_count_bounded(nodes, 2 * i + 1);
            lemma_interior_count_bounded(nodes, 2 * i + 2);
            let cl = subtree(nodes, 2 * i + 1).interior_count() as int;
            let cr = subtree(nodes, 2 * i + 2).interior_count() as int;
            assert(count == 1 + cl + cr);
            assert((cl + cr + 2) * (i + 1) <= n + 1) by (nonlinear_arith)
                requires
                    (cl + 1) * (2 * i + 2) <= n + 1,
                    (cr + 1) * (2 * i + 3) <= n + 1,
                    cl >= 0,
                    cr >= 0,
                    i >= 0,
            ;
        },
    }
    assert(count <= n) by (nonlinear_arith)
        requires
            (count + 1) * (i + 1) <= n + 1,
            i >= 0,
            count >= 0,
    ;
}

} // verus!
