//! Costs that may be absent: `None` stands for "cannot be done".

use vstd::prelude::*;

verus! {

/// An optional machine cost as an optional natural number.
pub open spec fn as_nat(cost: Option<usize>) -> Option<nat> {
    match cost {
        None => None,
        Some(c) => Some(c as nat),
    }
}

/// The cheaper of two options: absent only if both are, otherwise the
/// smaller of the present costs.
pub open spec fn least(a: Option<nat>, b: Option<nat>) -> Option<nat> {
    match (a, b) {
        (None, None) => None,
        (Some(x), None) => Some(x),
        (None, Some(y)) => Some(y),
        (Some(x), Some(y)) => if x <= y {
            Some(x)
        } else {
            Some(y)
        },
    }
}

/// Both options taken together: absent if either is, otherwise the sum.
pub open spec fn both(a: Option<nat>, b: Option<nat>) -> Option<nat> {
    match (a, b) {
        (Some(x), Some(y)) => Some(x + y),
        _ => None,
    }
}

/// One unit more than a present cost; absent stays absent.
pub open spec fn one_more(a: Option<nat>) -> Option<nat> {
    match a {
        None => None,
        Some(x) => Some(x + 1),
    }
}

/// Whether a cost, where present, is at most `bound`.
pub open spec fn within(a: Option<nat>, bound: nat) -> bool {
    a matches Some(x) ==> x <= bound
}

/// The cheaper of two optional costs.
pub fn min_option(v1: &Option<usize>, v2: &Option<usize>) -> (out: Option<usize>)
    ensures
        as_nat(out) == least(as_nat(*v1), as_nat(*v2)),
{
    match (v1, v2) {
        (None, None) => None,
        (Some(a), None) => Some(*a),
        (None, Some(b)) => Some(*b),
        (Some(a), Some(b)) => if *a <= *b {
            Some(*a)
        } else {
            Some(*b)
        },
    }
}

/// One more than an optional cost.
pub fn inc_option(v: &Option<usize>) -> (out: Option<usize>)
    requires
        *v matches Some(c) ==> c < usize::MAX,
    ensures
        as_nat(out) == one_more(as_nat(*v)),
{
    match v {
        None => None,
        Some(c) => Some(1 + *c),
    }
}

/// The sum of two optional costs.
pub fn add_options(v1: &Option<usize>, v2: &Option<usize>) -> (out: Option<usize>)
    requires
        *v1 matches Some(a) ==> (*v2 matches Some(b) ==> a + b <= usize::MAX),
    ensures
        as_nat(out) == both(as_nat(*v1), as_nat(*v2)),
{
    match (v1, v2) {
        (Some(a), Some(b)) => Some(*a + *b),
        _ => None,
    }
}

/// The cheaper of two options does not depend on their order.
pub proof fn lemma_least_commutes(a: Option<nat>, b: Option<nat>)
    ensures
        least(a, b) == least(b, a),
{
}

/// Taking both options does not depend on their order.
pub proof fn lemma_both_commutes(a: Option<nat>, b: Option<nat>)
    ensures
        both(a, b) == both(b, a),
{
}

} // verus!
