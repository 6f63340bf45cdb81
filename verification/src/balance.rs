//! Grammars that keep `Push` and `Pop` in balance, generation after
//! generation.

use vstd::prelude::*;
use crate::grammar::{expand, generation, production, rewrite, rules1_map, rules1_symbols};
use crate::nesting::{
    lemma_depth_counts, lemma_stack_depth_concat, lemma_stack_depth_next,
    lemma_well_nested_concat, lemma_well_nested_deeper, lemma_well_nested_end,
    lemma_well_nested_next, lemma_well_nested_split, pops, pushes, stack_depth, stack_effect,
    well_nested,
};
use crate::symbol::{flatten, lemma_flatten_concat, Action, Symbol, Variables};
use crate::system::axiom_state;

verus! {

/// Rewriting `symbol` changes nothing in the balance of `Push` and `Pop`: a
/// constant stays, and a variable's production has the depth of the actions
/// that the variable carried.
pub open spec fn keeps_depth(table: Map<Variables, Seq<Symbol>>, symbol: Symbol) -> bool {
    match symbol {
        Symbol::Constant(_) => true,
        Symbol::Variable(variant, actions) => stack_depth(flatten(production(table, variant)))
            == stack_depth(actions),
    }
}

/// Every symbol of `state` keeps its depth under rewriting.
pub open spec fn all_keep_depth(table: Map<Variables, Seq<Symbol>>, state: Seq<Symbol>) -> bool {
    forall|i: int| 0 <= i < state.len() ==> keeps_depth(table, #[trigger] state[i])
}

/// The table preserves balance: every symbol of every production keeps its
/// depth under rewriting.
pub open spec fn preserves_balance(table: Map<Variables, Seq<Symbol>>) -> bool {
    forall|variant: Variables|
        table.dom().contains(variant) ==> all_keep_depth(table, #[trigger] table[variant])
}

/// The actions of a generation of one symbol are that symbol's actions.
pub proof fn lemma_flatten_one(symbol: Symbol)
    ensures
        flatten(seq![symbol]) == symbol.actions(),
{
    assert(seq![symbol].drop_last() =~= Seq::<Symbol>::empty());
    assert(flatten(seq![symbol].drop_last()) =~= Seq::<Action>::empty());
    assert(flatten(seq![symbol]) =~= symbol.actions());
}

/// The actions of the next generation, symbol by symbol.
pub proof fn lemma_rewrite_last(table: Map<Variables, Seq<Symbol>>, state: Seq<Symbol>)
    requires
        state.len() > 0,
    ensures
        flatten(state) == flatten(state.drop_last()) + state.last().actions(),
        flatten(rewrite(table, state)) == flatten(rewrite(table, state.drop_last())) + flatten(
            expand(table, state.last()),
        ),
{
    lemma_flatten_concat(rewrite(table, state.drop_last()), expand(table, state.last()));
}

/// One rewriting leaves the depth of a generation as it is, where every
/// symbol keeps its depth.
pub proof fn law_rewrite_keeps_depth(table: Map<Variables, Seq<Symbol>>, state: Seq<Symbol>)
    requires
        all_keep_depth(table, state),
    ensures
        stack_depth(flatten(rewrite(table, state))) == stack_depth(flatten(state)),
    decreases state.len(),
{
    if state.len() > 0 {
        let last = state.last();
        assert(keeps_depth(table, state[state.len() - 1]));
        assert forall|i: int| 0 <= i < state.drop_last().len() implies keeps_depth(
            table,
            #[trigger] state.drop_last()[i],
        ) by {
            assert(keeps_depth(table, state[i]));
        }
        law_rewrite_keeps_depth(table, state.drop_last());
        lemma_rewrite_last(table, state);
        lemma_stack_depth_concat(
            flatten(rewrite(table, state.drop_last())),
            flatten(expand(table, last)),
        );
        lemma_stack_depth_concat(flatten(state.drop_last()), last.actions());
        if last is Constant {
            lemma_flatten_one(last);
        }
    }
}

/// Under a table that preserves balance, the next generation is again made
/// of symbols that keep their depth.
pub proof fn lemma_rewrite_stays_balanced(table: Map<Variables, Seq<Symbol>>, state: Seq<Symbol>)
    requires
        preserves_balance(table),
    ensures
        all_keep_depth(table, rewrite(table, state)),
    decreases state.len(),
{
    if state.len() > 0 {
        let earlier = rewrite(table, state.drop_last());
        let grown = expand(table, state.last());
        lemma_rewrite_stays_balanced(table, state.drop_last());
        assert forall|i: int| 0 <= i < (earlier + grown).len() implies keeps_depth(
            table,
            #[trigger] (earlier + grown)[i],
        ) by {
            if i < earlier.len() {
                assert(keeps_depth(table, earlier[i]));
            } else {
                match state.last() {
                    Symbol::Constant(_) => {},
                    Symbol::Variable(variant, _) => {
                        assert(all_keep_depth(table, table[variant]));
                        assert(keeps_depth(table, table[variant][i - earlier.len()]));
                    },
                }
            }
        }
    }
}

/// Balance: under a table that preserves balance, every generation has as
/// many `Push` actions more than `Pop` actions as the start has. If the
/// start has as many of the one as of the other, so has every generation.
pub proof fn law_balance(table: Map<Variables, Seq<Symbol>>, start: Seq<Symbol>, n: nat)
    requires
        preserves_balance(table),
        all_keep_depth(table, start),
    ensures
        all_keep_depth(table, generation(table, start, n)),
        pushes(flatten(generation(table, start, n))) - pops(flatten(generation(table, start, n)))
            == pushes(flatten(start)) - pops(flatten(start)),
        pushes(flatten(start)) == pops(flatten(start)) ==> pushes(
            flatten(generation(table, start, n)),
        ) == pops(flatten(generation(table, start, n))),
    decreases n,
{
    lemma_depth_counts(flatten(generation(table, start, n)));
    lemma_depth_counts(flatten(start));
    if n > 0 {
        let before = generation(table, start, (n - 1) as nat);
        law_balance(table, start, (n - 1) as nat);
        lemma_depth_counts(flatten(before));
        law_rewrite_keeps_depth(table, before);
        lemma_rewrite_stays_balanced(table, before);
    }
}

/// Actions that leave the stack as they found it and never reach below it.
pub open spec fn neutral(actions: Seq<Action>) -> bool {
    well_nested(actions, 0) && stack_depth(actions) == 0
}

/// A constant, or a variable whose own actions and whose production are
/// both neutral.
pub open spec fn calm(table: Map<Variables, Seq<Symbol>>, symbol: Symbol) -> bool {
    match symbol {
        Symbol::Constant(_) => true,
        Symbol::Variable(variant, actions) => neutral(actions) && neutral(
            flatten(production(table, variant)),
        ),
    }
}

/// Every symbol of `state` is calm.
pub open spec fn all_calm(table: Map<Variables, Seq<Symbol>>, state: Seq<Symbol>) -> bool {
    forall|i: int| 0 <= i < state.len() ==> calm(table, #[trigger] state[i])
}

/// Every symbol of every production is calm.
pub open spec fn calm_table(table: Map<Variables, Seq<Symbol>>) -> bool {
    forall|variant: Variables|
        table.dom().contains(variant) ==> all_calm(table, #[trigger] table[variant])
}

/// One rewriting of calm symbols keeps a generation well nested, and at the
/// same depth.
pub proof fn law_rewrite_keeps_nesting(table: Map<Variables, Seq<Symbol>>, state: Seq<Symbol>)
    requires
        all_calm(table, state),
        well_nested(flatten(state), 0),
    ensures
        well_nested(flatten(rewrite(table, state)), 0),
        stack_depth(flatten(rewrite(table, state))) == stack_depth(flatten(state)),
    decreases state.len(),
{
    if state.len() == 0 {
        assert(rewrite(table, state) =~= state);
    } else {
        let last = state.last();
        let shorter = state.drop_last();
        assert(calm(table, state[state.len() - 1]));
        assert forall|i: int| 0 <= i < shorter.len() implies calm(table, #[trigger] shorter[i]) by {
            assert(calm(table, state[i]));
        }
        lemma_rewrite_last(table, state);
        lemma_well_nested_split(flatten(shorter), last.actions(), 0);
        law_rewrite_keeps_nesting(table, shorter);
        let done = flatten(rewrite(table, shorter));
        let grown = flatten(expand(table, last));
        lemma_well_nested_end(done, 0);
        match last {
            Symbol::Constant(_) => {
                lemma_flatten_one(last);
            },
            Symbol::Variable(_, _) => {
                lemma_well_nested_deeper(grown, 0, stack_depth(done));
            },
        }
        lemma_well_nested_concat(done, grown, 0);
        lemma_stack_depth_concat(done, grown);
        lemma_stack_depth_concat(flatten(shorter), last.actions());
    }
}

/// Under a calm table, the next generation is made of calm symbols again.
pub proof fn lemma_rewrite_stays_calm(table: Map<Variables, Seq<Symbol>>, state: Seq<Symbol>)
    requires
        calm_table(table),
    ensures
        all_calm(table, rewrite(table, state)),
    decreases state.len(),
{
    if state.len() > 0 {
        let earlier = rewrite(table, state.drop_last());
        let grown = expand(table, state.last());
        lemma_rewrite_stays_calm(table, state.drop_last());
        assert forall|i: int| 0 <= i < (earlier + grown).len() implies calm(
            table,
            #[trigger] (earlier + grown)[i],
        ) by {
            if i < earlier.len() {
                assert(calm(table, earlier[i]));
            } else {
                match state.last() {
                    Symbol::Constant(_) => {},
                    Symbol::Variable(variant, _) => {
                        assert(all_calm(table, table[variant]));
                        assert(calm(table, table[variant][i - earlier.len()]));
                    },
                }
            }
        }
    }
}

/// No underflow, ever: under a calm table, every generation of a
/// well-nested start made of calm symbols is well nested, so that drawing
/// and measuring it find every `Pop` answered.
pub proof fn law_never_underflows(table: Map<Variables, Seq<Symbol>>, start: Seq<Symbol>, n: nat)
    requires
        calm_table(table),
        all_calm(table, start),
        well_nested(flatten(start), 0),
    ensures
        all_calm(table, generation(table, start, n)),
        well_nested(flatten(generation(table, start, n)), 0),
    decreases n,
{
    if n > 0 {
        let before = generation(table, start, (n - 1) as nat);
        law_never_underflows(table, start, (n - 1) as nat);
        law_rewrite_keeps_nesting(table, before);
        lemma_rewrite_stays_calm(table, before);
    }
}

/// No action of the list touches the stack.
pub open spec fn plain(actions: Seq<Action>) -> bool {
    forall|i: int| 0 <= i < actions.len() ==> stack_effect(#[trigger] actions[i]) == 0
}

/// Actions that do not touch the stack are neutral.
pub proof fn lemma_plain_is_neutral(actions: Seq<Action>)
    requires
        plain(actions),
    ensures
        neutral(actions),
    decreases actions.len(),
{
    if actions.len() == 0 {
        assert forall|k: int| 0 <= k <= actions.len() implies 0 + #[trigger] stack_depth(
            actions.take(k),
        ) >= 0 by {
            assert(actions.take(k) =~= actions);
        }
    } else {
        let n = actions.len() - 1;
        let shorter = actions.drop_last();
        assert forall|i: int| 0 <= i < shorter.len() implies stack_effect(#[trigger] shorter[i])
            == 0 by {
            assert(stack_effect(actions[i]) == 0);
        }
        lemma_plain_is_neutral(shorter);
        assert(stack_effect(actions[n]) == 0);
        assert(actions.take(n) =~= shorter);
        assert(actions.take(n + 1) =~= actions);
        lemma_stack_depth_next(actions, n);
        lemma_well_nested_next(actions, 0, n);
    }
}

/// A `Push`, actions that do not touch the stack, and the `Pop` that
/// answers it are neutral together, with such actions before and after.
pub proof fn lemma_bracket_is_neutral(before: Seq<Action>, inside: Seq<Action>, after: Seq<Action>)
    requires
        plain(before),
        plain(inside),
        plain(after),
    ensures
        neutral(before + seq![Action::Push] + inside + seq![Action::Pop] + after),
{
    let push = seq![Action::Push];
    let pop = seq![Action::Pop];
    lemma_plain_is_neutral(before);
    lemma_plain_is_neutral(inside);
    lemma_plain_is_neutral(after);
    assert(push.drop_last() =~= Seq::<Action>::empty());
    assert(pop.drop_last() =~= Seq::<Action>::empty());
    assert(stack_depth(Seq::<Action>::empty()) == 0);
    assert(stack_depth(push) == 1);
    assert(stack_depth(pop) == -1);
    assert forall|k: int| 0 <= k <= push.len() implies 0 + #[trigger] stack_depth(push.take(k))
        >= 0 by {
        if k == 0 {
            assert(push.take(0) =~= Seq::<Action>::empty());
        } else {
            assert(push.take(k) =~= push);
        }
    }
    assert forall|k: int| 0 <= k <= pop.len() implies 1 + #[trigger] stack_depth(pop.take(k))
        >= 0 by {
        if k == 0 {
            assert(pop.take(0) =~= Seq::<Action>::empty());
        } else {
            assert(pop.take(k) =~= pop);
        }
    }
    lemma_well_nested_concat(before, push, 0);
    lemma_stack_depth_concat(before, push);
    lemma_well_nested_deeper(inside, 0, 1);
    lemma_well_nested_concat(before + push, inside, 0);
    lemma_stack_depth_concat(before + push, inside);
    lemma_well_nested_concat(before + push + inside, pop, 0);
    lemma_stack_depth_concat(before + push + inside, pop);
    lemma_well_nested_concat(before + push + inside + pop, after, 0);
    lemma_stack_depth_concat(before + push + inside + pop, after);
}

/// The sample grammar is calm, and so is its start: no generation of it
/// ever underflows.
pub proof fn law_sample_is_calm()
    ensures
        calm_table(rules1_map()),
        all_calm(rules1_map(), axiom_state()),
        well_nested(flatten(axiom_state()), 0),
{
    let table = rules1_map();
    let for_a = rules1_symbols(Variables::A);
    let for_b = rules1_symbols(Variables::B);
    let whole_a = flatten(for_a);
    let whole_b = flatten(for_b);

    // What the two productions do, action by action.
    assert(flatten(Seq::<Symbol>::empty()) =~= Seq::<Action>::empty());
    assert(whole_a =~= for_a[0].actions() + for_a[1].actions() + for_a[2].actions()
        + for_a[3].actions() + for_a[4].actions()) by {
        let four = for_a.drop_last();
        let three = four.drop_last();
        let two = three.drop_last();
        let one = two.drop_last();
        assert(one.drop_last() =~= Seq::<Symbol>::empty());
        assert(flatten(one) =~= for_a[0].actions());
        assert(flatten(two) =~= flatten(one) + for_a[1].actions());
        assert(flatten(three) =~= flatten(two) + for_a[2].actions());
        assert(flatten(four) =~= flatten(three) + for_a[3].actions());
    }
    assert(whole_b =~= for_b[0].actions() + for_b[1].actions()) by {
        let one = for_b.drop_last();
        assert(one.drop_last() =~= Seq::<Symbol>::empty());
        assert(flatten(one) =~= for_b[0].actions());
    }
    let before = for_a[0].actions();
    let inside = seq![for_a[1].actions()[1]] + for_a[2].actions();
    let after = seq![for_a[3].actions()[1]] + for_a[4].actions();
    assert(whole_a =~= before + seq![Action::Push] + inside + seq![Action::Pop] + after);
    lemma_bracket_is_neutral(before, inside, after);
    lemma_plain_is_neutral(whole_b);
    lemma_plain_is_neutral(Seq::<Action>::empty());

    // Every variable has a neutral production.
    assert forall|variant: Variables| neutral(#[trigger] flatten(production(table, variant))) by {
        match variant {
            Variables::A => {},
            Variables::B => {},
            _ => {
                assert(production(table, variant) =~= Seq::<Symbol>::empty());
            },
        }
    }

    // Every variable in a production carries neutral actions.
    lemma_plain_is_neutral(for_a[0].actions());
    lemma_plain_is_neutral(for_a[2].actions());
    lemma_plain_is_neutral(for_a[4].actions());
    lemma_plain_is_neutral(for_b[0].actions());
    lemma_plain_is_neutral(for_b[1].actions());
    assert forall|variant: Variables| table.dom().contains(variant) implies all_calm(
        table,
        #[trigger] table[variant],
    ) by {
        assert forall|i: int| 0 <= i < table[variant].len() implies calm(
            table,
            #[trigger] table[variant][i],
        ) by {
            match table[variant][i] {
                Symbol::Constant(_) => {},
                Symbol::Variable(inner, _) => {
                    assert(neutral(flatten(production(table, inner))));
                },
            }
        }
    }

    // The start carries one line.
    let start = axiom_state();
    lemma_plain_is_neutral(start[0].actions());
    lemma_flatten_one(start[0]);
    assert(start =~= seq![start[0]]);
    assert(neutral(flatten(production(table, Variables::A))));
}

} // verus!
