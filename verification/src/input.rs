//! Test cases as sequences of unsigned numbers.
//!
//! A case is written as the node count `N` (odd), the wanted value, `N / 2`
//! pairs of a gate code and a changeable code for the interior nodes in
//! level order, and `N / 2 + 1` leaf values. In every code but the count,
//! `1` is AND or true and any other number is OR or false. An input is the
//! number of cases followed by the cases.

use vstd::prelude::*;
use crate::builder::{build, lemma_filled_keeps_least_changes, lemma_subtree_has_no_memo};
use crate::cost::as_nat;
use crate::flat::{heap_shaped, subtree, Node};
use crate::gate::{flag_from_code, flag_of_code, Gate};

verus! {

/// One test case: the nodes in level order and the value wanted at the
/// root.
#[derive(Debug)]
pub struct Case {
    pub desired: bool,
    pub nodes: Vec<Node>,
}

/// Why a sequence of numbers is not a test case.
#[derive(Clone, Copy, Debug, PartialEq, Eq, Structural)]
pub enum ParseError {
    /// The numbers end before the case does.
    Truncated,
    /// The node count is even, so the nodes cannot form a complete tree.
    EvenNodeCount,
}

/// How many numbers a case of `n` nodes takes, its two leading numbers
/// included.
pub open spec fn case_len(n: int) -> int {
    2 + 2 * (n / 2) + (n / 2 + 1)
}

/// The node that the case starting at `start` describes at index `j`.
pub open spec fn node_at(tokens: Seq<usize>, start: int, j: int) -> Node {
    let n = tokens[start] as int;
    if j < n / 2 {
        Node::Interior {
            gate: Gate::of_code(tokens[start + 2 + 2 * j]),
            changeable: flag_of_code(tokens[start + 3 + 2 * j]),
        }
    } else {
        Node::Leaf { value: flag_of_code(tokens[start + 2 + 2 * (n / 2) + (j - n / 2)]) }
    }
}

/// The nodes that the case starting at `start` describes.
pub open spec fn nodes_at(tokens: Seq<usize>, start: int) -> Seq<Node> {
    Seq::new(tokens[start] as nat, |j: int| node_at(tokens, start, j))
}

/// What reading a case at `start` gives: the case's wanted value and
/// nodes, and the index of the first number after it; or the reason why
/// there is no case. The count and the wanted value are read first, then
/// the count is tested, then the rest is read.
pub open spec fn case_at(tokens: Seq<usize>, start: int) -> Result<(bool, Seq<Node>, int), ParseError> {
    if start + 2 > tokens.len() {
        Err(ParseError::Truncated)
    } else if tokens[start] % 2 == 0 {
        Err(ParseError::EvenNodeCount)
    } else if start + case_len(tokens[start] as int) > tokens.len() {
        Err(ParseError::Truncated)
    } else {
        Ok(
            (
                flag_of_code(tokens[start + 1]),
                nodes_at(tokens, start),
                start + case_len(tokens[start] as int),
            ),
        )
    }
}

/// The answer to the case that `wanted` and `nodes` describe.
pub open spec fn answer(wanted: bool, nodes: Seq<Node>) -> Option<nat> {
    subtree(nodes, 0).least_changes(wanted)
}

/// The answers to `count` cases written one after the other from index
/// `start` on, or the reason why the first case that cannot be read
/// cannot.
pub open spec fn answers_from(tokens: Seq<usize>, start: int, count: nat) -> Result<
    Seq<Option<nat>>,
    ParseError,
>
    decreases count,
{
    if count == 0 {
        Ok(Seq::empty())
    } else {
        match case_at(tokens, start) {
            Err(e) => Err(e),
            Ok((wanted, nodes, next)) => match answers_from(tokens, next, (count - 1) as nat) {
                Err(e) => Err(e),
                Ok(rest) => Ok(seq![answer(wanted, nodes)] + rest),
            },
        }
    }
}

/// The answers to a whole input: the number of cases, then the cases.
/// Numbers after the last case are not looked at.
pub open spec fn answers(tokens: Seq<usize>) -> Result<Seq<Option<nat>>, ParseError> {
    if tokens.len() == 0 {
        Err(ParseError::Truncated)
    } else {
        answers_from(tokens, 1, tokens[0] as nat)
    }
}

/// `answers` before `rest`, where there is a `rest`.
spec fn followed_by(
    answers: Seq<Option<nat>>,
    rest: Result<Seq<Option<nat>>, ParseError>,
) -> Result<Seq<Option<nat>>, ParseError> {
    match rest {
        Ok(more) => Ok(answers + more),
        Err(e) => Err(e),
    }
}

impl Case {
    /// Validity: the nodes form a complete tree in level order.
    pub open spec fn wf(self) -> bool {
        heap_shaped(self.nodes@)
    }

    /// The least number of changes after which the root evaluates to the
    /// wanted value, or `None` if no changes achieve that.
    pub fn solve(&self) -> (out: Option<usize>)
        requires
            self.wf(),
        ensures
            as_nat(out) == answer(self.desired, self.nodes@),
    {
        let mut root = build(self.nodes.as_slice());
        proof {
            lemma_subtree_has_no_memo(self.nodes@, 0);
            lemma_filled_keeps_least_changes(subtree(self.nodes@, 0), self.desired);
        }
        root.min_changes(self.desired)
    }
}

/// Reads the case that starts at index `start`.
pub fn parse_case(tokens: &[usize], start: usize) -> (out: Result<(Case, usize), ParseError>)
    requires
        start <= tokens@.len(),
    ensures
        match out {
            Ok((case, next)) => case_at(tokens@, start as int) == Ok::<_, ParseError>(
                (case.desired, case.nodes@, next as int),
            ) && case.wf(),
            Err(e) => case_at(tokens@, start as int) == Err::<(bool, Seq<Node>, int), _>(e),
        },
{
    let len = tokens.len();
    if len - start < 2 {
        return Err(ParseError::Truncated);
    }
    let n = tokens[start];
    let desired = flag_from_code(tokens[start + 1]);
    if n % 2 == 0 {
        return Err(ParseError::EvenNodeCount);
    }
    let room = len - start - 2;
    let half = n / 2;
    if n > room || half + 1 > room - 2 * half {
        return Err(ParseError::Truncated);
    }
    let first = start + 2;
    let mut nodes: Vec<Node> = Vec::new();
    let mut j: usize = 0;
    while j < half
        invariant
            len == tokens@.len(),
            n == tokens@[start as int],
            half == n / 2,
            first == start + 2,
            first + 2 * half + half + 1 <= len,
            j <= half,
            nodes@.len() == j,
            forall|i: int| 0 <= i < j ==> #[trigger] nodes@[i] == node_at(tokens@, start as int, i),
        decreases half - j,
    {
        let gate = Gate::from_code(tokens[first + 2 * j]);
        let changeable = flag_from_code(tokens[first + 2 * j + 1]);
        nodes.push(Node::Interior { gate, changeable });
        j += 1;
    }
    let leaves = first + 2 * half;
    while j < n
        invariant
            len == tokens@.len(),
            n == tokens@[start as int],
            n % 2 == 1,
            half == n / 2,
            leaves == start + 2 + 2 * half,
            leaves + half + 1 <= len,
            half <= j <= n,
            nodes@.len() == j,
            forall|i: int| 0 <= i < j ==> #[trigger] nodes@[i] == node_at(tokens@, start as int, i),
        decreases n - j,
    {
        let value = flag_from_code(tokens[leaves + (j - half)]);
        nodes.push(Node::Leaf { value });
        j += 1;
    }
    assert(nodes@ =~= nodes_at(tokens@, start as int));
    Ok((Case { desired, nodes }, leaves + half + 1))
}

/// Answers every case of an input, in order.
pub fn solve_all(tokens: &[usize]) -> (out: Result<Vec<Option<usize>>, ParseError>)
    ensures
        match out {
            Ok(found) => answers(tokens@) == Ok::<_, ParseError>(found@.map_values(|c| as_nat(c))),
            Err(e) => answers(tokens@) == Err::<Seq<Option<nat>>, _>(e),
        },
{
    if tokens.len() == 0 {
        return Err(ParseError::Truncated);
    }
    let count = tokens[0];
    let mut found: Vec<Option<usize>> = Vec::new();
    let mut at: usize = 1;
    let mut done: usize = 0;
    while done < count
        invariant
            tokens@.len() > 0,
            count == tokens@[0],
            done <= count,
            at <= tokens@.len(),
            answers(tokens@) == followed_by(
                found@.map_values(|c| as_nat(c)),
                answers_from(tokens@, at as int, (count - done) as nat),
            ),
        decreases count - done,
    {
        let ghost before = found@.map_values(|c| as_nat(c));
        match parse_case(tokens, at) {
            Err(e) => {
                return Err(e);
            },
            Ok((case, next)) => {
                let one = case.solve();
                found.push(one);
                proof {
                    let rest = answers_from(tokens@, next as int, (count - done - 1) as nat);
                    let after = found@.map_values(|c| as_nat(c));
                    assert(after =~= before + seq![as_nat(one)]);
                    if rest is Ok {
                        assert(after + rest->Ok_0 =~= before + (seq![as_nat(one)] + rest->Ok_0));
                    }
                }
                at = next;
                done += 1;
            },
        }
    }
    assert(found@.map_values(|c| as_nat(c)) + Seq::<Option<nat>>::empty() =~= found@.map_values(
        |c| as_nat(c),
    ));
    Ok(found)
}

} // verus!
