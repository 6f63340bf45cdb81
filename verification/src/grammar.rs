//! Rule tables and the rewriting of one generation into the next.

use vstd::prelude::*;
use crate::scalar::{
    Scalar, EIGHTH_TURN, EIGHTH_TURN_BACK, FIFTH, FOUR_FIFTHS, HALF, ONE, SEVEN_TENTHS, TEN, TENTH,
    THREE_FIFTHS, THREE_TENTHS,
};
use crate::symbol::{symbols, Action, FillColor, LSystemSymbol, Symbol, Variables};

verus! {

/// One rule: the symbols that replace every occurrence of a variable.
#[derive(Debug, PartialEq, Eq)]
pub struct Rule {
    pub variant: Variables,
    pub production: Vec<LSystemSymbol>,
}

/// The rules of a grammar. Where two rules name the same variable, the one
/// defined later counts.
#[derive(Debug, PartialEq, Eq)]
pub struct RuleTable {
    pub rules: Vec<Rule>,
}

/// The mapping that a list of rules stands for.
pub open spec fn table_of(rules: Seq<Rule>) -> Map<Variables, Seq<Symbol>>
    decreases rules.len(),
{
    if rules.len() == 0 {
        Map::empty()
    } else {
        table_of(rules.drop_last()).insert(rules.last().variant, symbols(rules.last().production@))
    }
}

/// What a variable is replaced by: its production, or nothing at all where
/// the table has no rule for it.
pub open spec fn production(table: Map<Variables, Seq<Symbol>>, variant: Variables) -> Seq<Symbol> {
    if table.dom().contains(variant) {
        table[variant]
    } else {
        Seq::empty()
    }
}

/// What one symbol becomes: a constant stays, a variable gives way to its
/// production, whatever actions it carried.
pub open spec fn expand(table: Map<Variables, Seq<Symbol>>, symbol: Symbol) -> Seq<Symbol> {
    match symbol {
        Symbol::Constant(_) => seq![symbol],
        Symbol::Variable(variant, _) => production(table, variant),
    }
}

/// The next generation: every symbol expanded, in order.
pub open spec fn rewrite(table: Map<Variables, Seq<Symbol>>, state: Seq<Symbol>) -> Seq<Symbol>
    decreases state.len(),
{
    if state.len() == 0 {
        Seq::empty()
    } else {
        rewrite(table, state.drop_last()) + expand(table, state.last())
    }
}

/// The generation reached from `start` by rewriting `n` times.
pub open spec fn generation(
    table: Map<Variables, Seq<Symbol>>,
    start: Seq<Symbol>,
    n: nat,
) -> Seq<Symbol>
    decreases n,
{
    if n == 0 {
        start
    } else {
        rewrite(table, generation(table, start, (n - 1) as nat))
    }
}

/// Rewriting distributes over concatenation: no symbol's expansion depends
/// on its neighbours.
pub proof fn lemma_rewrite_concat(
    table: Map<Variables, Seq<Symbol>>,
    left: Seq<Symbol>,
    right: Seq<Symbol>,
)
    ensures
        rewrite(table, left + right) == rewrite(table, left) + rewrite(table, right),
    decreases right.len(),
{
    if right.len() == 0 {
        assert(left + right =~= left);
        assert(rewrite(table, left) + rewrite(table, right) =~= rewrite(table, left));
    } else {
        assert((left + right).drop_last() =~= left + right.drop_last());
        lemma_rewrite_concat(table, left, right.drop_last());
        assert(rewrite(table, left + right) =~= rewrite(table, left) + rewrite(table, right));
    }
}

/// The rewriting of a prefix that grows by one symbol.
pub proof fn lemma_rewrite_next(table: Map<Variables, Seq<Symbol>>, state: Seq<Symbol>, n: int)
    requires
        0 <= n < state.len(),
    ensures
        rewrite(table, state.take(n + 1)) == rewrite(table, state.take(n)) + expand(
            table,
            state[n],
        ),
        rewrite(table, state.take(n + 1)).len() <= rewrite(table, state).len(),
{
    assert(state.take(n + 1).drop_last() =~= state.take(n));
    assert(state =~= state.take(n + 1) + state.skip(n + 1));
    lemma_rewrite_concat(table, state.take(n + 1), state.skip(n + 1));
}

/// The symbol is a variable that the table has no rule for: rewriting drops
/// it without a trace.
pub open spec fn lacks_rule(table: Map<Variables, Seq<Symbol>>, symbol: Symbol) -> bool {
    match symbol {
        Symbol::Constant(_) => false,
        Symbol::Variable(variant, _) => !table.dom().contains(variant),
    }
}

impl RuleTable {
    /// The table as a mapping from variables to productions.
    pub open spec fn view(&self) -> Map<Variables, Seq<Symbol>> {
        table_of(self.rules@)
    }

    /// A table without rules: it drops every variable.
    pub fn new() -> (table: RuleTable)
        ensures
            table@ == Map::<Variables, Seq<Symbol>>::empty(),
    {
        RuleTable { rules: Vec::new() }
    }

    /// Gives `variant` the production `production`, in place of any it had.
    pub fn define(&mut self, variant: Variables, production: Vec<LSystemSymbol>)
        ensures
            final(self)@ == old(self)@.insert(variant, symbols(production@)),
    {
        self.rules.push(Rule { variant, production });
        proof {
            assert(self.rules@.drop_last() =~= old(self).rules@);
        }
    }

    /// The first symbol of `state` that is a variable without a rule, for a
    /// caller who wants every variable listed and none dropped by omission.
    pub fn first_undefined(&self, state: &Vec<LSystemSymbol>) -> (found: Option<usize>)
        ensures
            match found {
                Some(i) => {
                    &&& i < state@.len()
                    &&& lacks_rule(self@, state@[i as int]@)
                    &&& forall|j: int| 0 <= j < i ==> !lacks_rule(self@, #[trigger] state@[j]@)
                },
                None => forall|j: int|
                    0 <= j < state@.len() ==> !lacks_rule(self@, #[trigger] state@[j]@),
            },
    {
        let mut i: usize = 0;
        while i < state.len()
            invariant
                i <= state@.len(),
                forall|j: int| 0 <= j < i ==> !lacks_rule(self@, #[trigger] state@[j]@),
            decreases state@.len() - i,
        {
            match &state[i] {
                LSystemSymbol::Constant(_) => {},
                LSystemSymbol::Variable(variant, _) => {
                    if self.lookup(*variant).is_none() {
                        return Some(i);
                    }
                },
            }
            i += 1;
        }
        None
    }

    /// The production of `variant`, if the table has a rule for it.
    pub fn lookup(&self, variant: Variables) -> (found: Option<&Vec<LSystemSymbol>>)
        ensures
            match found {
                Some(symbols_found) => self@.dom().contains(variant) && symbols(symbols_found@)
                    == self@[variant],
                None => !self@.dom().contains(variant),
            },
    {
        let mut i: usize = self.rules.len();
        proof {
            assert(self.rules@.take(i as int) =~= self.rules@);
        }
        while i > 0
            invariant
                i <= self.rules@.len(),
                table_of(self.rules@.take(i as int)).dom().contains(variant)
                    == self@.dom().contains(variant),
                self@.dom().contains(variant) ==> table_of(self.rules@.take(i as int))[variant]
                    == self@[variant],
            decreases i,
        {
            i -= 1;
            proof {
                assert(self.rules@.take(i + 1).drop_last() =~= self.rules@.take(i as int));
            }
            if self.rules[i].variant == variant {
                return Some(&self.rules[i].production);
            }
        }
        proof {
            assert(self.rules@.take(0).len() == 0);
        }
        None
    }
}

/// The productions of the sample grammar, a branching plant.
///
/// `A` grows a stem `B`, a branch to the left that is drawn and left again,
/// and a shoot to the right; a stem `B` doubles. The other variables stand
/// for nothing: their production is empty.
pub open spec fn rules1_symbols(var: Variables) -> Seq<Symbol> {
    match var {
        Variables::A => seq![
            Symbol::Variable(
                Variables::B,
                seq![
                    Action::DrawLine(
                        Scalar { bits: TEN },
                        FillColor::Rgb(
                            Scalar { bits: THREE_FIFTHS },
                            Scalar { bits: FIFTH },
                            Scalar { bits: FOUR_FIFTHS },
                        ),
                    ),
                ],
            ),
            Symbol::Constant(seq![Action::Push, Action::Rotate(Scalar { bits: EIGHTH_TURN })]),
            Symbol::Variable(
                Variables::A,
                seq![
                    Action::DrawLine(
                        Scalar { bits: TEN },
                        FillColor::Rgb(
                            Scalar { bits: ONE },
                            Scalar { bits: FIFTH },
                            Scalar { bits: HALF },
                        ),
                    ),
                    Action::DrawCircle(FillColor::Inherit),
                ],
            ),
            Symbol::Constant(seq![Action::Pop, Action::Rotate(Scalar { bits: EIGHTH_TURN_BACK })]),
            Symbol::Variable(
                Variables::A,
                seq![
                    Action::DrawLine(
                        Scalar { bits: TEN },
                        FillColor::Rgb(
                            Scalar { bits: TENTH },
                            Scalar { bits: SEVEN_TENTHS },
                            Scalar { bits: SEVEN_TENTHS },
                        ),
                    ),
                    Action::DrawCircle(
                        FillColor::Rgb(
                            Scalar { bits: 0 },
                            Scalar { bits: FOUR_FIFTHS },
                            Scalar { bits: FIFTH },
                        ),
                    ),
                ],
            ),
        ],
        Variables::B => seq![
            Symbol::Variable(
                Variables::B,
                seq![
                    Action::DrawLine(
                        Scalar { bits: TEN },
                        FillColor::Rgb(
                            Scalar { bits: THREE_TENTHS },
                            Scalar { bits: HALF },
                            Scalar { bits: FOUR_FIFTHS },
                        ),
                    ),
                ],
            ),
            Symbol::Variable(
                Variables::B,
                seq![Action::DrawLine(Scalar { bits: TEN }, FillColor::Inherit)],
            ),
        ],
        _ => Seq::empty(),
    }
}

/// The sample grammar as a mapping: every variable has a production.
pub open spec fn rules1_map() -> Map<Variables, Seq<Symbol>> {
    Map::new(|var: Variables| true, |var: Variables| rules1_symbols(var))
}

/// A fill mode that names its colour by the bits of the three channels.
fn fill(red: u32, green: u32, blue: u32) -> (color: FillColor)
    ensures
        color == FillColor::Rgb(
            Scalar { bits: red },
            Scalar { bits: green },
            Scalar { bits: blue },
        ),
{
    FillColor::Rgb(Scalar { bits: red }, Scalar { bits: green }, Scalar { bits: blue })
}

/// A line of 10 units.
fn stroke(color: FillColor) -> (action: Action)
    ensures
        action == Action::DrawLine(Scalar { bits: TEN }, color),
{
    Action::DrawLine(Scalar { bits: TEN }, color)
}

/// A list of one action.
fn one(action: Action) -> (actions: Vec<Action>)
    ensures
        actions@ == seq![action],
{
    let actions = vec![action];
    proof {
        assert(actions@ =~= seq![action]);
    }
    actions
}

/// A list of two actions.
fn two(first: Action, second: Action) -> (actions: Vec<Action>)
    ensures
        actions@ == seq![first, second],
{
    let actions = vec![first, second];
    proof {
        assert(actions@ =~= seq![first, second]);
    }
    actions
}

/// The production of the sample grammar for `var`.
pub fn rules1(var: Variables) -> (production: Vec<LSystemSymbol>)
    ensures
        symbols(production@) == rules1_symbols(var),
{
    match var {
        Variables::A => {
            let stem = LSystemSymbol::Variable(
                Variables::B,
                one(stroke(fill(THREE_FIFTHS, FIFTH, FOUR_FIFTHS))),
            );
            let turn_left = LSystemSymbol::Constant(
                two(Action::Push, Action::Rotate(Scalar { bits: EIGHTH_TURN })),
            );
            let branch = LSystemSymbol::Variable(
                Variables::A,
                two(stroke(fill(ONE, FIFTH, HALF)), Action::DrawCircle(FillColor::Inherit)),
            );
            let turn_right = LSystemSymbol::Constant(
                two(Action::Pop, Action::Rotate(Scalar { bits: EIGHTH_TURN_BACK })),
            );
            let shoot = LSystemSymbol::Variable(
                Variables::A,
                two(
                    stroke(fill(TENTH, SEVEN_TENTHS, SEVEN_TENTHS)),
                    Action::DrawCircle(fill(0, FOUR_FIFTHS, FIFTH)),
                ),
            );
            let production = vec![stem, turn_left, branch, turn_right, shoot];
            proof {
                assert(symbols(production@) =~= rules1_symbols(var));
            }
            production
        },
        Variables::B => {
            let lower = LSystemSymbol::Variable(
                Variables::B,
                one(stroke(fill(THREE_TENTHS, HALF, FOUR_FIFTHS))),
            );
            let upper = LSystemSymbol::Variable(Variables::B, one(stroke(FillColor::Inherit)));
            let production = vec![lower, upper];
            proof {
                assert(symbols(production@) =~= rules1_symbols(var));
            }
            production
        },
        _ => {
            let production: Vec<LSystemSymbol> = Vec::new();
            proof {
                assert(symbols(production@) =~= rules1_symbols(var));
            }
            production
        },
    }
}

/// The sample grammar as a table with a rule for each of the variables.
pub fn rules1_table() -> (table: RuleTable)
    ensures
        table@ == rules1_map(),
{
    let mut table = RuleTable::new();
    table.define(Variables::A, rules1(Variables::A));
    table.define(Variables::B, rules1(Variables::B));
    table.define(Variables::C, rules1(Variables::C));
    table.define(Variables::D, rules1(Variables::D));
    table.define(Variables::E, rules1(Variables::E));
    table.define(Variables::F, rules1(Variables::F));
    table.define(Variables::G, rules1(Variables::G));
    table.define(Variables::H, rules1(Variables::H));
    proof {
        assert(table@ =~= rules1_map());
    }
    table
}

} // verus!
