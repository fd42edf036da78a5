use boolean_tree::cost::{add_options, inc_option, min_option};
use boolean_tree::gate::{flag_from_code, Gate};
use boolean_tree::rule::{select, Combinator};

#[test]
fn min_option_takes_the_smaller_present_value() {
    assert_eq!(min_option(&None, &None), None);
    assert_eq!(min_option(&Some(4), &None), Some(4));
    assert_eq!(min_option(&None, &Some(7)), Some(7));
    assert_eq!(min_option(&Some(4), &Some(7)), Some(4));
    assert_eq!(min_option(&Some(7), &Some(4)), Some(4));
    assert_eq!(min_option(&Some(5), &Some(5)), Some(5));
}

#[test]
fn inc_option_adds_one_to_a_present_value() {
    assert_eq!(inc_option(&None), None);
    assert_eq!(inc_option(&Some(0)), Some(1));
    assert_eq!(inc_option(&Some(41)), Some(42));
    assert_eq!(inc_option(&Some(usize::MAX - 1)), Some(usize::MAX));
}

#[test]
fn add_options_needs_both() {
    assert_eq!(add_options(&None, &None), None);
    assert_eq!(add_options(&Some(3), &None), None);
    assert_eq!(add_options(&None, &Some(3)), None);
    assert_eq!(add_options(&Some(3), &Some(4)), Some(7));
    assert_eq!(add_options(&Some(0), &Some(0)), Some(0));
}

#[test]
fn gate_codes() {
    assert_eq!(Gate::from_code(1), Gate::And);
    assert_eq!(Gate::from_code(0), Gate::Or);
    assert_eq!(Gate::from_code(2), Gate::Or);
    assert_eq!(Gate::from_code(usize::MAX), Gate::Or);
}

#[test]
fn flag_codes() {
    assert!(flag_from_code(1));
    assert!(!flag_from_code(0));
    assert!(!flag_from_code(2));
}

#[test]
fn gates_combine() {
    assert!(Gate::And.combine(true, true));
    assert!(!Gate::And.combine(true, false));
    assert!(!Gate::And.combine(false, true));
    assert!(!Gate::And.combine(false, false));
    assert!(Gate::Or.combine(true, true));
    assert!(Gate::Or.combine(true, false));
    assert!(Gate::Or.combine(false, true));
    assert!(!Gate::Or.combine(false, false));
}

#[test]
fn rows_of_a_fixed_gate() {
    assert_eq!(select(false, false, Gate::Or, true, true), Combinator::Sum);
    assert_eq!(select(false, false, Gate::Or, false, true), Combinator::Right);
    assert_eq!(select(false, false, Gate::Or, true, false), Combinator::Left);
    assert_eq!(select(false, true, Gate::Or, false, false), Combinator::Least);
    assert_eq!(select(false, true, Gate::And, false, false), Combinator::Sum);
    assert_eq!(select(false, true, Gate::And, true, false), Combinator::Right);
    assert_eq!(select(false, true, Gate::And, false, true), Combinator::Left);
    assert_eq!(select(false, false, Gate::And, true, true), Combinator::Least);
}

#[test]
fn rows_of_a_changeable_gate() {
    assert_eq!(select(true, false, Gate::Or, false, true), Combinator::One);
    assert_eq!(select(true, false, Gate::Or, true, false), Combinator::One);
    assert_eq!(select(true, true, Gate::Or, false, false), Combinator::Least);
    assert_eq!(select(true, false, Gate::Or, true, true), Combinator::LeastPlusOne);
    assert_eq!(select(true, true, Gate::And, true, false), Combinator::One);
    assert_eq!(select(true, true, Gate::And, false, true), Combinator::One);
    assert_eq!(select(true, false, Gate::And, true, true), Combinator::Least);
    assert_eq!(select(true, true, Gate::And, false, false), Combinator::LeastPlusOne);
}
