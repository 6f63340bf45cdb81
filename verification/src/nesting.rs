//! Saving and restoring: how deep the stack of saved cursors gets, and where
//! a `Pop` would find it empty. All of it depends on the order of `Push` and
//! `Pop` alone.

use vstd::prelude::*;
use crate::symbol::Action;

verus! {

/// By how much an action changes the number of saved cursors.
pub open spec fn stack_effect(action: Action) -> int {
    match action {
        Action::Push => 1,
        Action::Pop => -1,
        _ => 0,
    }
}

/// The number of `Push` actions minus the number of `Pop` actions.
pub open spec fn stack_depth(actions: Seq<Action>) -> int
    decreases actions.len(),
{
    if actions.len() == 0 {
        0
    } else {
        stack_depth(actions.drop_last()) + stack_effect(actions.last())
    }
}

/// No `Pop` finds the stack empty, when `saved` cursors are there at the
/// start.
pub open spec fn well_nested(actions: Seq<Action>, saved: int) -> bool {
    forall|k: int| 0 <= k <= actions.len() ==> saved + #[trigger] stack_depth(actions.take(k)) >= 0
}

/// Action `k` is the first `Pop` that finds the stack empty.
pub open spec fn underflows_at(actions: Seq<Action>, saved: int, k: int) -> bool {
    &&& 0 <= k < actions.len()
    &&& actions[k] == Action::Pop
    &&& saved + stack_depth(actions.take(k)) == 0
    &&& well_nested(actions.take(k), saved)
}

/// The depth of a prefix that grows by one action.
pub proof fn lemma_stack_depth_next(actions: Seq<Action>, n: int)
    requires
        0 <= n < actions.len(),
    ensures
        stack_depth(actions.take(n + 1)) == stack_depth(actions.take(n)) + stack_effect(actions[n]),
{
    assert(actions.take(n + 1).drop_last() =~= actions.take(n));
}

/// A well-nested prefix stays well nested with one more action, if that
/// action does not take the depth below zero.
pub proof fn lemma_well_nested_next(actions: Seq<Action>, saved: int, n: int)
    requires
        0 <= n < actions.len(),
        well_nested(actions.take(n), saved),
        saved + stack_depth(actions.take(n + 1)) >= 0,
    ensures
        well_nested(actions.take(n + 1), saved),
{
    assert forall|k: int| 0 <= k <= n + 1 implies saved + #[trigger] stack_depth(
        actions.take(n + 1).take(k),
    ) >= 0 by {
        if k <= n {
            assert(actions.take(n + 1).take(k) =~= actions.take(n).take(k));
        } else {
            assert(actions.take(n + 1).take(k) =~= actions.take(n + 1));
        }
    }
}

/// Where a `Pop` finds the stack empty, the actions are not well nested.
pub proof fn lemma_underflow_not_nested(actions: Seq<Action>, saved: int, k: int)
    requires
        underflows_at(actions, saved, k),
    ensures
        !well_nested(actions, saved),
{
    lemma_stack_depth_next(actions, k);
    assert(saved + stack_depth(actions.take(k + 1)) < 0);
}

/// The depth of two lists of actions, one after the other.
pub proof fn lemma_stack_depth_concat(first: Seq<Action>, second: Seq<Action>)
    ensures
        stack_depth(first + second) == stack_depth(first) + stack_depth(second),
    decreases second.len(),
{
    if second.len() == 0 {
        assert(first + second =~= first);
    } else {
        assert((first + second).drop_last() =~= first + second.drop_last());
        lemma_stack_depth_concat(first, second.drop_last());
    }
}

/// Two well-nested lists, the second starting at the depth the first
/// reaches, are well nested together.
pub proof fn lemma_well_nested_concat(first: Seq<Action>, second: Seq<Action>, saved: int)
    requires
        well_nested(first, saved),
        well_nested(second, saved + stack_depth(first)),
    ensures
        well_nested(first + second, saved),
{
    assert forall|k: int| 0 <= k <= (first + second).len() implies saved + #[trigger] stack_depth(
        (first + second).take(k),
    ) >= 0 by {
        if k <= first.len() {
            assert((first + second).take(k) =~= first.take(k));
        } else {
            let rest = k - first.len();
            assert((first + second).take(k) =~= first + second.take(rest));
            lemma_stack_depth_concat(first, second.take(rest));
        }
    }
}

/// An underflow in the second of two lists is an underflow of both
/// together, when the first is well nested.
pub proof fn lemma_underflow_concat(first: Seq<Action>, second: Seq<Action>, saved: int, k: int)
    requires
        well_nested(first, saved),
        underflows_at(second, saved + stack_depth(first), k),
    ensures
        underflows_at(first + second, saved, first.len() + k),
{
    assert((first + second).take(first.len() + k) =~= first + second.take(k));
    lemma_stack_depth_concat(first, second.take(k));
    lemma_well_nested_concat(first, second.take(k), saved);
}

/// An underflow stays where it is when more actions follow.
pub proof fn lemma_underflow_extends(actions: Seq<Action>, more: Seq<Action>, saved: int, k: int)
    requires
        underflows_at(actions, saved, k),
    ensures
        underflows_at(actions + more, saved, k),
{
    assert((actions + more).take(k) =~= actions.take(k));
}

/// The number of `Push` actions.
pub open spec fn pushes(actions: Seq<Action>) -> nat {
    actions.filter(|action: Action| action == Action::Push).len()
}

/// The number of `Pop` actions.
pub open spec fn pops(actions: Seq<Action>) -> nat {
    actions.filter(|action: Action| action == Action::Pop).len()
}

/// The depth is the number of `Push` actions less the number of `Pop`
/// actions.
pub proof fn lemma_depth_counts(actions: Seq<Action>)
    ensures
        stack_depth(actions) == pushes(actions) - pops(actions),
    decreases actions.len(),
{
    reveal(Seq::filter);
    if actions.len() > 0 {
        lemma_depth_counts(actions.drop_last());
    }
}

/// The parts of a well-nested list: the first is well nested, and so is the
/// second at the depth the first reaches.
pub proof fn lemma_well_nested_split(first: Seq<Action>, second: Seq<Action>, saved: int)
    requires
        well_nested(first + second, saved),
    ensures
        well_nested(first, saved),
        well_nested(second, saved + stack_depth(first)),
{
    let both = first + second;
    assert forall|k: int| 0 <= k <= first.len() implies saved + #[trigger] stack_depth(
        first.take(k),
    ) >= 0 by {
        assert(both.take(k) =~= first.take(k));
    }
    assert forall|k: int| 0 <= k <= second.len() implies saved + stack_depth(first)
        + #[trigger] stack_depth(second.take(k)) >= 0 by {
        assert(both.take(first.len() + k) =~= first + second.take(k));
        lemma_stack_depth_concat(first, second.take(k));
    }
}

/// What is well nested stays so with more cursors saved at the start.
pub proof fn lemma_well_nested_deeper(actions: Seq<Action>, saved: int, more: int)
    requires
        well_nested(actions, saved),
        saved <= more,
    ensures
        well_nested(actions, more),
{
}

/// A well-nested list never ends below the depth it started at.
pub proof fn lemma_well_nested_end(actions: Seq<Action>, saved: int)
    requires
        well_nested(actions, saved),
    ensures
        saved + stack_depth(actions) >= 0,
{
    assert(actions.take(actions.len() as int) =~= actions);
}

/// There is one first underflow at most: whatever reports one reports the
/// same place.
pub proof fn law_underflow_unique(actions: Seq<Action>, saved: int, one: int, other: int)
    requires
        underflows_at(actions, saved, one),
        underflows_at(actions, saved, other),
    ensures
        one == other,
{
    if one < other {
        lemma_stack_depth_next(actions, one);
        assert(actions.take(other).take(one + 1) =~= actions.take(one + 1));
    }
    if other < one {
        lemma_stack_depth_next(actions, other);
        assert(actions.take(one).take(other + 1) =~= actions.take(other + 1));
    }
}

} // verus!
