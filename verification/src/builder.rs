//! From the flat layout to an owned tree with every memo slot filled.

use vstd::prelude::*;
use crate::flat;
use crate::flat::{heap_shaped, lemma_interior_count_bounded, subtree};
use crate::tree::{lemma_changeable_among_interior, Node};

verus! {

impl Node {
    /// The same tree with every memo slot holding the value that the gates
    /// and leaves below it give.
    pub open spec fn filled(self) -> Node
        decreases self,
    {
        match self {
            Node::Leaf { value } => Node::Leaf { value },
            Node::Interior { gate, changeable, left, right, .. } => Node::Interior {
                gate,
                changeable,
                left: Box::new(left.filled()),
                right: Box::new(right.filled()),
                cached_value: Some(self.truth()),
            },
        }
    }
}

/// What the builder holds at index `j` while the indices from `k` on have
/// been linked: a leaf is ready from the start, an interior node as soon
/// as its left child, the later of the two, has been attached.
spec fn ready(nodes: Seq<flat::Node>, k: int, j: int) -> bool {
    nodes[j] is Leaf || 2 * j + 1 >= k
}

/// Links the nodes of a complete tree in level order into an owned tree,
/// walking the indices from the last down to 1 and attaching each node to
/// its parent at `(k - 1) / 2`, as the left child where `k` is odd and as
/// the right child otherwise. A parent's memo slot is filled when its
/// left child arrives, which is when both are there.
pub fn build(nodes: &[flat::Node]) -> (root: Node)
    requires
        heap_shaped(nodes@),
    ensures
        root == subtree(nodes@, 0).filled(),
        root.erased() == subtree(nodes@, 0),
        root.memo_sound(),
        root.fully_cached(),
        root.changeable_count() <= usize::MAX,
{
    let n = nodes.len();
    let mut linked: Vec<Option<Node>> = Vec::new();
    let mut i: usize = 0;
    while i < n
        invariant
            n == nodes@.len(),
            i <= n,
            linked@.len() == i,
            forall|j: int|
                0 <= j < i && nodes@[j] is Leaf ==> #[trigger] linked@[j] == Some(
                    subtree(nodes@, j).filled(),
                ),
        decreases n - i,
    {
        match nodes[i] {
            flat::Node::Leaf { value } => linked.push(Some(Node::Leaf { value })),
            flat::Node::Interior { .. } => linked.push(None),
        }
        i += 1;
    }
    let mut waiting: Option<Node> = None;
    let mut k: usize = n;
    while k > 1
        invariant
            n == nodes@.len(),
            heap_shaped(nodes@),
            1 <= k <= n,
            linked@.len() == k,
            forall|j: int|
                0 <= j < k && ready(nodes@, k as int, j) ==> #[trigger] linked@[j] == Some(
                    subtree(nodes@, j).filled(),
                ),
            k % 2 == 0 ==> waiting == Some(subtree(nodes@, k as int).filled()),
        decreases k,
    {
        k -= 1;
        assert(ready(nodes@, k + 1, k as int));
        let node = linked.pop().unwrap().unwrap();
        if k % 2 == 1 {
            let parent = (k - 1) / 2;
            match (nodes[parent], waiting) {
                (flat::Node::Interior { gate, changeable }, Some(right)) => {
                    proof {
                        lemma_filled_is_complete(subtree(nodes@, k as int));
                        lemma_filled_is_complete(subtree(nodes@, k + 1));
                    }
                    let cached = gate.combine(node.value(), right.value());
                    linked.set(
                        parent,
                        Some(
                            Node::Interior {
                                gate,
                                changeable,
                                left: Box::new(node),
                                right: Box::new(right),
                                cached_value: Some(cached),
                            },
                        ),
                    );
                },
                _ => unreached(),
            }
            waiting = None;
            assert forall|j: int| 0 <= j < k && ready(nodes@, k as int, j) implies #[trigger] linked@[j]
                == Some(subtree(nodes@, j).filled()) by {
                if j != parent {
                    assert(ready(nodes@, k + 1, j));
                }
            }
        } else {
            waiting = Some(node);
            assert forall|j: int| 0 <= j < k && ready(nodes@, k as int, j) implies #[trigger] linked@[j]
                == Some(subtree(nodes@, j).filled()) by {
                assert(ready(nodes@, k + 1, j));
            }
        }
    }
    assert(ready(nodes@, 1, 0));
    let root = linked.pop().unwrap().unwrap();
    proof {
        lemma_filled_is_complete(subtree(nodes@, 0));
        lemma_subtree_has_no_memo(nodes@, 0);
        lemma_interior_count_bounded(nodes@, 0);
        lemma_changeable_among_interior(subtree(nodes@, 0));
    }
    root
}

/// A filled tree has every memo slot filled and valid, evaluates to what
/// its gates and leaves give, and is otherwise the tree it was made of.
pub proof fn lemma_filled_is_complete(node: Node)
    ensures
        node.filled().fully_cached(),
        node.filled().is_cached(),
        node.filled().memo_sound(),
        node.filled().evaluation() == node.truth(),
        node.filled().truth() == node.truth(),
        node.filled().erased() == node.erased(),
        node.filled().changeable_count() == node.changeable_count(),
        node.filled().interior_count() == node.interior_count(),
    decreases node,
{
    match node {
        Node::Leaf { .. } => {},
        Node::Interior { left, right, .. } => {
            lemma_filled_is_complete(*left);
            lemma_filled_is_complete(*right);
        },
    }
}

/// The tree read off the flat layout has empty memo slots throughout.
pub proof fn lemma_subtree_has_no_memo(nodes: Seq<flat::Node>, i: int)
    ensures
        subtree(nodes, i).erased() == subtree(nodes, i),
        subtree(nodes, i).memo_sound(),
    decreases
        (if 0 <= i < nodes.len() {
            nodes.len() - i
        } else {
            0
        }),
{
    if 0 <= i < nodes.len() && nodes[i] is Interior {
        lemma_subtree_has_no_memo(nodes, 2 * i + 1);
        lemma_subtree_has_no_memo(nodes, 2 * i + 2);
    }
}

/// Filling the memo slots of a tree whose slots are valid changes neither
/// its evaluation nor its least number of changes.
pub proof fn lemma_filled_keeps_least_changes(node: Node, desired: bool)
    requires
        node.memo_sound(),
    ensures
        node.filled().evaluation() == node.evaluation(),
        node.filled().least_changes(desired) == node.least_changes(desired),
    decreases node,
{
    match node {
        Node::Leaf { .. } => {},
        Node::Interior { left, right, .. } => {
            lemma_filled_keeps_least_changes(*left, desired);
            lemma_filled_keeps_least_changes(*right, desired);
            lemma_filled_is_complete(node);
            crate::laws::lemma_sound_evaluation_is_truth(node);
        },
    }
}

/// The owned tree built from a complete level-order sequence and the
/// sequence itself give the same evaluation and the same least number of
/// changes.
pub proof fn lemma_layouts_agree(nodes: Seq<flat::Node>, desired: bool)
    ensures
        subtree(nodes, 0).filled().evaluation() == subtree(nodes, 0).evaluation(),
        subtree(nodes, 0).filled().least_changes(desired) == subtree(nodes, 0).least_changes(
            desired,
        ),
{
    lemma_subtree_has_no_memo(nodes, 0);
    lemma_filled_keeps_least_changes(subtree(nodes, 0), desired);
}

} // verus!
