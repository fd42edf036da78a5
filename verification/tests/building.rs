use boolean_tree::builder::build;
use boolean_tree::flat;
use boolean_tree::flat::NodeRef;
use boolean_tree::gate::Gate;
use boolean_tree::input::{parse_case, solve_all, Case, ParseError};
use boolean_tree::tree::Node;

fn nine_nodes() -> Vec<flat::Node> {
    vec![
        flat::Node::Interior { gate: Gate::And, changeable: false },
        flat::Node::Interior { gate: Gate::And, changeable: true },
        flat::Node::Interior { gate: Gate::And, changeable: true },
        flat::Node::Interior { gate: Gate::Or, changeable: false },
        flat::Node::Leaf { value: true },
        flat::Node::Leaf { value: false },
        flat::Node::Leaf { value: true },
        flat::Node::Leaf { value: false },
        flat::Node::Leaf { value: true },
    ]
}

fn is_leaf(node: &Node, expected: bool) -> bool {
    matches!(node, Node::Leaf { value } if *value == expected)
}

#[test]
fn build_single_leaf() {
    let root = build(&[flat::Node::Leaf { value: true }]);
    assert!(is_leaf(&root, true));
}

#[test]
fn build_links_left_and_right() {
    let root = build(&[
        flat::Node::Interior { gate: Gate::Or, changeable: true },
        flat::Node::Leaf { value: true },
        flat::Node::Leaf { value: false },
    ]);
    match root {
        Node::Interior { gate, changeable, left, right, cached_value } => {
            assert_eq!(gate, Gate::Or);
            assert!(changeable);
            assert!(is_leaf(&left, true));
            assert!(is_leaf(&right, false));
            assert_eq!(cached_value, Some(true));
        }
        Node::Leaf { .. } => unreachable!(),
    }
}

#[test]
fn build_nine_nodes() {
    let root = build(&nine_nodes());
    let Node::Interior { gate, changeable, left, right, cached_value } = root else {
        unreachable!()
    };
    assert_eq!((gate, changeable, cached_value), (Gate::And, false, Some(false)));
    let Node::Interior { gate, changeable, left: l3, right: l4, cached_value } = *left else {
        unreachable!()
    };
    assert_eq!((gate, changeable, cached_value), (Gate::And, true, Some(true)));
    assert!(is_leaf(&l4, true));
    let Node::Interior { gate, changeable, left: l7, right: l8, cached_value } = *l3 else {
        unreachable!()
    };
    assert_eq!((gate, changeable, cached_value), (Gate::Or, false, Some(true)));
    assert!(is_leaf(&l7, false));
    assert!(is_leaf(&l8, true));
    let Node::Interior { gate, changeable, left: l5, right: l6, cached_value } = *right else {
        unreachable!()
    };
    assert_eq!((gate, changeable, cached_value), (Gate::And, true, Some(false)));
    assert!(is_leaf(&l5, false));
    assert!(is_leaf(&l6, true));
}

#[test]
fn built_tree_agrees_with_the_flat_layout() {
    let nodes = nine_nodes();
    let mut root = build(&nodes);
    let flat_root = NodeRef::new(&nodes);
    assert_eq!(root.value(), flat_root.eval());
    assert_eq!(root.eval(), flat_root.eval());
    for desired in [false, true] {
        assert_eq!(root.min_changes(desired), flat_root.min_changes(desired));
    }
    assert_eq!(root.min_changes(true), Some(1));
}

#[test]
fn parse_nine_node_case() {
    let tokens = [9, 1, 1, 0, 1, 1, 1, 1, 0, 0, 1, 0, 1, 0, 1];
    let (case, next) = parse_case(&tokens, 0).unwrap();
    assert_eq!(next, 15);
    assert!(case.desired);
    assert_eq!(case.nodes, nine_nodes());
    assert_eq!(case.solve(), Some(1));
}

#[test]
fn parse_two_cases_in_a_row() {
    let tokens = [2, 9, 1, 1, 0, 1, 1, 1, 1, 0, 0, 1, 0, 1, 0, 1, 5, 0, 1, 1, 0, 0, 1, 1, 0];
    let (first, next) = parse_case(&tokens, 1).unwrap();
    assert_eq!(next, 16);
    assert_eq!(first.solve(), Some(1));
    let (second, next) = parse_case(&tokens, next).unwrap();
    assert_eq!(next, 25);
    assert!(!second.desired);
    assert_eq!(
        second.nodes,
        vec![
            flat::Node::Interior { gate: Gate::And, changeable: true },
            flat::Node::Interior { gate: Gate::Or, changeable: false },
            flat::Node::Leaf { value: true },
            flat::Node::Leaf { value: true },
            flat::Node::Leaf { value: false },
        ]
    );
    assert_eq!(second.solve(), None);
    assert_eq!(parse_case(&tokens, next).unwrap_err(), ParseError::Truncated);
}

#[test]
fn parse_reads_other_codes_as_or_and_false() {
    let tokens = [3, 7, 0, 2, 5, 1];
    let (case, next) = parse_case(&tokens, 0).unwrap();
    assert_eq!(next, 6);
    assert!(!case.desired);
    assert_eq!(
        case.nodes,
        vec![
            flat::Node::Interior { gate: Gate::Or, changeable: false },
            flat::Node::Leaf { value: false },
            flat::Node::Leaf { value: true },
        ]
    );
}

#[test]
fn parse_single_leaf_case() {
    let (case, next) = parse_case(&[1, 0, 1], 0).unwrap();
    assert_eq!(next, 3);
    assert!(!case.desired);
    assert_eq!(case.nodes, vec![flat::Node::Leaf { value: true }]);
    assert_eq!(case.solve(), None);
}

#[test]
fn parse_rejects_an_even_count() {
    assert_eq!(parse_case(&[2, 1, 1, 0, 1, 1], 0).unwrap_err(), ParseError::EvenNodeCount);
    assert_eq!(parse_case(&[0, 1, 1], 0).unwrap_err(), ParseError::EvenNodeCount);
    assert_eq!(parse_case(&[4, 1], 0).unwrap_err(), ParseError::EvenNodeCount);
}

#[test]
fn parse_rejects_a_short_sequence() {
    assert_eq!(parse_case(&[], 0).unwrap_err(), ParseError::Truncated);
    assert_eq!(parse_case(&[3], 0).unwrap_err(), ParseError::Truncated);
    assert_eq!(parse_case(&[3, 1], 0).unwrap_err(), ParseError::Truncated);
    assert_eq!(parse_case(&[3, 1, 1, 0, 1], 0).unwrap_err(), ParseError::Truncated);
    assert_eq!(parse_case(&[usize::MAX, 1, 1, 0, 1], 0).unwrap_err(), ParseError::Truncated);
    assert_eq!(parse_case(&[9, 3, 1, 1, 0, 1], 1).unwrap_err(), ParseError::Truncated);
    assert_eq!(parse_case(&[3, 1, 1, 0, 1, 1], 6).unwrap_err(), ParseError::Truncated);
}

#[test]
fn solve_changeable_or_of_false_leaves() {
    let (case, _) = parse_case(&[3, 1, 0, 1, 0, 0], 0).unwrap();
    assert_eq!(case.solve(), None);
}

#[test]
fn solve_fixed_and_of_true_leaves() {
    let (case, _) = parse_case(&[3, 0, 1, 0, 1, 1], 0).unwrap();
    assert_eq!(case.solve(), None);
}

#[test]
fn solve_a_case_written_by_hand() {
    let case = Case {
        desired: false,
        nodes: vec![
            flat::Node::Interior { gate: Gate::Or, changeable: true },
            flat::Node::Leaf { value: false },
            flat::Node::Leaf { value: true },
        ],
    };
    assert_eq!(case.solve(), Some(1));
}

#[test]
fn solve_all_answers_each_case_in_order() {
    let tokens = [2, 9, 1, 1, 0, 1, 1, 1, 1, 0, 0, 1, 0, 1, 0, 1, 5, 0, 1, 1, 0, 0, 1, 1, 0];
    assert_eq!(solve_all(&tokens), Ok(vec![Some(1), None]));
}

#[test]
fn solve_all_of_no_cases() {
    assert_eq!(solve_all(&[0]), Ok(vec![]));
    assert_eq!(solve_all(&[0, 5, 5]), Ok(vec![]));
}

#[test]
fn solve_all_leaves_later_numbers_alone() {
    assert_eq!(solve_all(&[1, 1, 1, 1, 4, 4]), Ok(vec![Some(0)]));
}

#[test]
fn solve_all_reports_the_first_fault() {
    assert_eq!(solve_all(&[]), Err(ParseError::Truncated));
    assert_eq!(solve_all(&[1]), Err(ParseError::Truncated));
    assert_eq!(solve_all(&[2, 1, 0, 1]), Err(ParseError::Truncated));
    assert_eq!(solve_all(&[2, 1, 0, 1, 2, 0, 1, 1]), Err(ParseError::EvenNodeCount));
    assert_eq!(solve_all(&[usize::MAX, 1, 0, 1]), Err(ParseError::Truncated));
}

#[test]
fn solve_all_three_small_cases() {
    let tokens = [3, 1, 0, 1, 3, 1, 0, 1, 0, 0, 3, 0, 1, 0, 1, 1];
    assert_eq!(solve_all(&tokens), Ok(vec![None, None, None]));
    let tokens = [3, 1, 1, 1, 3, 0, 0, 1, 0, 1, 3, 1, 1, 1, 0, 1];
    assert_eq!(solve_all(&tokens), Ok(vec![Some(0), Some(1), Some(1)]));
}
