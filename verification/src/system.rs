//! An L-system: its current generation, and how that generation is drawn.

use vstd::prelude::*;
use crate::scalar::{Point, Rgb, Scalar, QUARTER_TURN, TEN};
use crate::symbol::{
    append_copies, flatten, lemma_flatten_concat, symbols, Action, FillColor, LSystemSymbol,
    Symbol, Variables,
};
use crate::extent::get_drawing_dimensions;
use crate::balance::{law_never_underflows, law_sample_is_calm};
use crate::grammar::{
    expand, generation, lemma_rewrite_next, rewrite, rules1_map, rules1_table, RuleTable,
};
use crate::nesting::{
    lemma_underflow_concat, lemma_underflow_extends, lemma_underflow_not_nested, underflows_at,
    well_nested,
};
use crate::turtle::{process_actions, Arithmetic, Config, Primitive, Turtle};

verus! {

/// Width and height of a drawing.
#[derive(Clone, Copy, Debug, PartialEq, Eq, Structural)]
pub struct Size {
    pub width: Scalar,
    pub height: Scalar,
}

/// A `Pop` found nothing to restore.
#[derive(Clone, Copy, Debug, PartialEq, Eq, Structural)]
pub struct StackUnderflow {
    /// The index of the symbol that holds the `Pop`.
    pub symbol: usize,
    /// The index of the `Pop` among that symbol's actions.
    pub action: usize,
}

/// A generation together with the size of its drawing.
#[derive(Debug, PartialEq, Eq)]
pub struct LSystem {
    pub state: Vec<LSystemSymbol>,
    pub dimensions: Size,
}

/// Where action `action` of symbol `symbol` stands among all actions of a
/// generation.
pub open spec fn position_of(state: Seq<Symbol>, symbol: int, action: int) -> int {
    flatten(state.take(symbol)).len() + action
}

/// The cursor every interpretation starts from: at the origin, pointing up,
/// drawing in black.
pub open spec fn axiom_cursor() -> Config {
    Config {
        position: Point { x: Scalar { bits: 0 }, y: Scalar { bits: 0 } },
        radians: Scalar { bits: QUARTER_TURN },
        color: Rgb { red: Scalar { bits: 0 }, green: Scalar { bits: 0 }, blue: Scalar { bits: 0 } },
    }
}

/// The axiom: one symbol `A` that draws one line of 10 units in the
/// cursor's colour.
pub open spec fn axiom_state() -> Seq<Symbol> {
    seq![
        Symbol::Variable(
            Variables::A,
            seq![Action::DrawLine(Scalar { bits: TEN }, FillColor::Inherit)],
        ),
    ]
}

impl LSystem {
    /// The symbols of the current generation.
    pub open spec fn view(&self) -> Seq<Symbol> {
        symbols(self.state@)
    }

    /// All actions of the current generation, in order.
    pub open spec fn actions(&self) -> Seq<Action> {
        flatten(symbols(self.state@))
    }

    /// The cursor that an interpretation starts from, unless the caller moves
    /// it: at the origin, pointing up, drawing in black.
    pub fn axiom_config() -> (cursor: Config)
        ensures
            cursor == axiom_cursor(),
    {
        let zero = Scalar { bits: 0 };
        Config {
            position: Point { x: zero, y: zero },
            radians: Scalar { bits: QUARTER_TURN },
            color: Rgb { red: zero, green: zero, blue: zero },
        }
    }

    /// Generation 0. Its drawing is one upright line, 0 wide and 10 high.
    pub fn initial() -> (system: LSystem)
        ensures
            system@ == axiom_state(),
            system.dimensions == (Size {
                width: Scalar { bits: 0 },
                height: Scalar { bits: TEN },
            }),
    {
        let mut actions: Vec<Action> = Vec::new();
        actions.push(Action::DrawLine(Scalar { bits: TEN }, FillColor::Inherit));
        let mut state: Vec<LSystemSymbol> = Vec::new();
        state.push(LSystemSymbol::Variable(Variables::A, actions));
        proof {
            assert(symbols(state@) =~= axiom_state());
        }
        LSystem {
            state,
            dimensions: Size { width: Scalar { bits: 0 }, height: Scalar { bits: TEN } },
        }
    }

    /// Interprets the generation from the cursor `start` and appends what it
    /// draws to `out`, in the order of drawing.
    ///
    /// Variables and constants are run alike, symbol after symbol. The pass
    /// ends at the first `Pop` that finds nothing saved and says where it
    /// stands; `out` then holds what was drawn before it.
    pub fn draw<P, M, T, C, S>(
        &self,
        out: &mut Vec<Primitive>,
        start: Config,
        arithmetic: &Arithmetic<P, M, T, C, S>,
    ) -> (halted: Result<(), StackUnderflow>) where
        P: Fn(Scalar, Scalar) -> Scalar,
        M: Fn(Scalar, Scalar) -> Scalar,
        T: Fn(Scalar, Scalar) -> Scalar,
        C: Fn(Scalar) -> Scalar,
        S: Fn(Scalar) -> Scalar,

        requires
            arithmetic.total(),
        ensures
            halted is Ok <==> well_nested(self.actions(), 0),
            old(out)@.len() <= final(out)@.len(),
            final(out)@.take(old(out)@.len() as int) == old(out)@,
            match halted {
                Ok(()) => arithmetic.draws(
                    self.actions(),
                    start,
                    final(out)@.skip(old(out)@.len() as int),
                ),
                Err(e) => {
                    &&& e.symbol < self.state@.len()
                    &&& e.action < self@[e.symbol as int].actions().len()
                    &&& underflows_at(
                        self.actions(),
                        0,
                        position_of(self@, e.symbol as int, e.action as int),
                    )
                    &&& arithmetic.draws(
                        self.actions().take(position_of(self@, e.symbol as int, e.action as int)),
                        start,
                        final(out)@.skip(old(out)@.len() as int),
                    )
                },
            },
    {
        let ghost given = out@;
        let ghost origin = Turtle { cursor: start, stack: Seq::empty() };
        let mut curr_state = start;
        let mut stack: Vec<Config> = Vec::new();
        let mut s: usize = 0;
        proof {
            assert(self@.take(0) =~= Seq::empty());
            let trace = seq![origin];
            assert(arithmetic.walk(Seq::empty(), trace));
            assert(out@.skip(given.len() as int) =~= Seq::empty());
        }
        while s < self.state.len()
            invariant
                s <= self.state@.len(),
                arithmetic.total(),
                given == old(out)@,
                origin == (Turtle { cursor: start, stack: Seq::empty() }),
                given.len() <= out@.len(),
                out@.take(given.len() as int) == given,
                arithmetic.runs(
                    flatten(self@.take(s as int)),
                    origin,
                    Turtle { cursor: curr_state, stack: stack@ },
                    out@.skip(given.len() as int),
                ),
            decreases self.state@.len() - s,
        {
            let ghost done = flatten(self@.take(s as int));
            let ghost between = Turtle { cursor: curr_state, stack: stack@ };
            let ghost early = out@;
            let halted = process_actions(
                out,
                &mut curr_state,
                &mut stack,
                self.state[s].actions().as_slice(),
                arithmetic,
            );
            let ghost here = self@[s as int].actions();
            let ghost after = Turtle { cursor: curr_state, stack: stack@ };
            proof {
                assert(self@.take(s + 1).drop_last() =~= self@.take(s as int));
                assert(flatten(self@.take(s + 1)) == done + here);
                arithmetic.lemma_runs_depth(done, origin, between, early.skip(given.len() as int));
                assert(out@.skip(given.len() as int) =~= early.skip(given.len() as int) + out@.skip(
                    early.len() as int,
                ));
                assert(out@.take(given.len() as int) =~= early.take(given.len() as int));
            }
            match halted {
                Ok(()) => {
                    proof {
                        arithmetic.lemma_runs_concat(
                            done,
                            here,
                            origin,
                            between,
                            after,
                            early.skip(given.len() as int),
                            out@.skip(early.len() as int),
                        );
                    }
                },
                Err(k) => {
                    proof {
                        arithmetic.lemma_runs_concat(
                            done,
                            here.take(k as int),
                            origin,
                            between,
                            after,
                            early.skip(given.len() as int),
                            out@.skip(early.len() as int),
                        );
                        lemma_underflow_concat(done, here, 0, k as int);
                        assert(self@ =~= self@.take(s + 1) + self@.skip(s + 1));
                        lemma_flatten_concat(self@.take(s + 1), self@.skip(s + 1));
                        lemma_underflow_extends(
                            done + here,
                            flatten(self@.skip(s + 1)),
                            0,
                            done.len() + k,
                        );
                        assert(self.actions().take(done.len() + k) =~= done + here.take(k as int));
                        lemma_underflow_not_nested(self.actions(), 0, done.len() + k);
                    }
                    return Err(StackUnderflow { symbol: s, action: k });
                },
            }
            s += 1;
        }
        proof {
            assert(self@.take(s as int) =~= self@);
            arithmetic.lemma_runs_depth(
                self.actions(),
                origin,
                Turtle { cursor: curr_state, stack: stack@ },
                out@.skip(given.len() as int),
            );
        }
        Ok(())
    }
}

impl Clone for LSystem {
    fn clone(&self) -> (copy: Self)
        ensures
            copy@ == self@,
            copy.dimensions == self.dimensions,
    {
        let mut state: Vec<LSystemSymbol> = Vec::with_capacity(self.state.len());
        append_copies(&mut state, &self.state);
        proof {
            assert(symbols(state@) =~= symbols(self.state@));
        }
        LSystem { state, dimensions: self.dimensions }
    }
}

/// Why a generation could not be reached.
#[derive(Clone, Copy, Debug, PartialEq, Eq, Structural)]
pub enum GrowthError {
    /// It would hold more symbols than the ceiling allows.
    SymbolLimit,
    /// Its drawing cannot be measured: a `Pop` finds nothing to restore.
    StackUnderflow(StackUnderflow),
}

/// A generation that can be kept: it respects the ceiling and no `Pop` in it
/// finds the stack empty.
pub open spec fn admissible(state: Seq<Symbol>, ceiling: int) -> bool {
    state.len() <= ceiling && well_nested(flatten(state), 0)
}

/// The generation `state` is refused for the reason `error`.
pub open spec fn refused(state: Seq<Symbol>, ceiling: int, error: GrowthError) -> bool {
    match error {
        GrowthError::SymbolLimit => state.len() > ceiling,
        GrowthError::StackUnderflow(e) => {
            &&& state.len() <= ceiling
            &&& 0 <= e.symbol < state.len()
            &&& e.action < state[e.symbol as int].actions().len()
            &&& underflows_at(
                flatten(state),
                0,
                position_of(state, e.symbol as int, e.action as int),
            )
        },
    }
}

/// A generation is refused only if it is not admissible.
pub proof fn lemma_refused_not_admissible(state: Seq<Symbol>, ceiling: int, error: GrowthError)
    requires
        refused(state, ceiling, error),
    ensures
        !admissible(state, ceiling),
{
    match error {
        GrowthError::SymbolLimit => {},
        GrowthError::StackUnderflow(e) => {
            lemma_underflow_not_nested(
                flatten(state),
                0,
                position_of(state, e.symbol as int, e.action as int),
            );
        },
    }
}

impl LSystem {
    /// The stored dimensions are a size of the drawing of the stored
    /// generation.
    pub open spec fn measured<P, M, T, C, S>(
        &self,
        arithmetic: &Arithmetic<P, M, T, C, S>,
    ) -> bool where
        P: Fn(Scalar, Scalar) -> Scalar,
        M: Fn(Scalar, Scalar) -> Scalar,
        T: Fn(Scalar, Scalar) -> Scalar,
        C: Fn(Scalar) -> Scalar,
        S: Fn(Scalar) -> Scalar,
     {
        arithmetic.measures(self.actions(), axiom_cursor(), self.dimensions)
    }
}

/// Replaces the generation by the next one and measures its drawing.
///
/// Every constant is kept; every variable gives way to the production the
/// table has for it, or to nothing where the table has none. The size of the
/// next generation is counted first: if it is above `ceiling`, or if the new
/// drawing cannot be measured, the system is left as it was.
pub fn proceed_system<P, M, T, C, S>(
    lsys: &mut LSystem,
    rules: &RuleTable,
    ceiling: usize,
    arithmetic: &Arithmetic<P, M, T, C, S>,
) -> (grown: Result<(), GrowthError>) where
    P: Fn(Scalar, Scalar) -> Scalar,
    M: Fn(Scalar, Scalar) -> Scalar,
    T: Fn(Scalar, Scalar) -> Scalar,
    C: Fn(Scalar) -> Scalar,
    S: Fn(Scalar) -> Scalar,

    requires
        arithmetic.total(),
    ensures
        grown is Ok <==> admissible(rewrite(rules@, old(lsys)@), ceiling as int),
        match grown {
            Ok(()) => {
                &&& final(lsys)@ == rewrite(rules@, old(lsys)@)
                &&& final(lsys).measured(arithmetic)
            },
            Err(error) => {
                &&& refused(rewrite(rules@, old(lsys)@), ceiling as int, error)
                &&& *final(lsys) == *old(lsys)
            },
        },
{
    let ghost next = rewrite(rules@, lsys@);
    let mut count: usize = 0;
    let mut i: usize = 0;
    proof {
        assert(lsys@.take(0) =~= Seq::empty());
    }
    while i < lsys.state.len()
        invariant
            i <= lsys.state@.len(),
            lsys == old(lsys),
            next == rewrite(rules@, lsys@),
            count == rewrite(rules@, lsys@.take(i as int)).len(),
            count <= ceiling,
        decreases lsys.state@.len() - i,
    {
        let more: usize = match &lsys.state[i] {
            LSystemSymbol::Constant(_) => 1,
            LSystemSymbol::Variable(variant, _) => match rules.lookup(*variant) {
                Some(found) => found.len(),
                None => 0,
            },
        };
        proof {
            lemma_rewrite_next(rules@, lsys@, i as int);
            assert(more == expand(rules@, lsys@[i as int]).len());
        }
        if more > ceiling - count {
            proof {
                lemma_refused_not_admissible(next, ceiling as int, GrowthError::SymbolLimit);
            }
            return Err(GrowthError::SymbolLimit);
        }
        count += more;
        i += 1;
    }
    proof {
        assert(lsys@.take(i as int) =~= lsys@);
    }
    let mut new_state: Vec<LSystemSymbol> = Vec::with_capacity(count);
    i = 0;
    proof {
        assert(lsys@.take(0) =~= Seq::empty());
        assert(symbols(new_state@) =~= Seq::empty());
    }
    while i < lsys.state.len()
        invariant
            i <= lsys.state@.len(),
            lsys == old(lsys),
            symbols(new_state@) == rewrite(rules@, lsys@.take(i as int)),
        decreases lsys.state@.len() - i,
    {
        let ghost so_far = symbols(new_state@);
        proof {
            lemma_rewrite_next(rules@, lsys@, i as int);
        }
        match &lsys.state[i] {
            LSystemSymbol::Constant(_) => {
                new_state.push(lsys.state[i].duplicate());
                proof {
                    assert(symbols(new_state@) =~= so_far + seq![lsys@[i as int]]);
                }
            },
            LSystemSymbol::Variable(variant, _) => {
                match rules.lookup(*variant) {
                    Some(found) => {
                        append_copies(&mut new_state, found);
                    },
                    None => {
                        proof {
                            assert(so_far + Seq::<Symbol>::empty() =~= so_far);
                        }
                    },
                }
            },
        }
        i += 1;
    }
    proof {
        assert(lsys@.take(i as int) =~= lsys@);
        assert(symbols(new_state@).len() == new_state@.len());
    }
    let mut grown = LSystem { state: new_state, dimensions: lsys.dimensions };
    match get_drawing_dimensions(&grown, arithmetic) {
        Ok(size) => {
            grown.dimensions = size;
            *lsys = grown;
            Ok(())
        },
        Err(e) => {
            proof {
                lemma_refused_not_admissible(
                    next,
                    ceiling as int,
                    GrowthError::StackUnderflow(e),
                );
            }
            Err(GrowthError::StackUnderflow(e))
        },
    }
}

/// Rewrites the system `generations` times, one generation after the other.
///
/// It stops at the first generation that cannot be kept and leaves the
/// system at the one before it.
pub fn grow<P, M, T, C, S>(
    lsys: &mut LSystem,
    rules: &RuleTable,
    generations: usize,
    ceiling: usize,
    arithmetic: &Arithmetic<P, M, T, C, S>,
) -> (grown: Result<(), GrowthError>) where
    P: Fn(Scalar, Scalar) -> Scalar,
    M: Fn(Scalar, Scalar) -> Scalar,
    T: Fn(Scalar, Scalar) -> Scalar,
    C: Fn(Scalar) -> Scalar,
    S: Fn(Scalar) -> Scalar,

    requires
        arithmetic.total(),
    ensures
        grown is Ok <==> forall|j: nat|
            1 <= j <= generations ==> admissible(
                #[trigger] generation(rules@, old(lsys)@, j),
                ceiling as int,
            ),
        match grown {
            Ok(()) => {
                &&& final(lsys)@ == generation(rules@, old(lsys)@, generations as nat)
                &&& generations == 0 ==> *final(lsys) == *old(lsys)
                &&& generations > 0 ==> final(lsys).measured(arithmetic)
            },
            Err(error) => exists|reached: nat|
                {
                    &&& reached < generations
                    &&& final(lsys)@ == #[trigger] generation(rules@, old(lsys)@, reached)
                    &&& refused(rewrite(rules@, final(lsys)@), ceiling as int, error)
                    &&& reached == 0 ==> *final(lsys) == *old(lsys)
                    &&& reached > 0 ==> final(lsys).measured(arithmetic)
                    &&& forall|j: nat|
                        1 <= j <= reached ==> admissible(
                            #[trigger] generation(rules@, old(lsys)@, j),
                            ceiling as int,
                        )
                },
        },
{
    let mut done: usize = 0;
    while done < generations
        invariant
            done <= generations,
            arithmetic.total(),
            lsys@ == generation(rules@, old(lsys)@, done as nat),
            done == 0 ==> *lsys == *old(lsys),
            done > 0 ==> lsys.measured(arithmetic),
            forall|j: nat|
                1 <= j <= done ==> admissible(
                    #[trigger] generation(rules@, old(lsys)@, j),
                    ceiling as int,
                ),
        decreases generations - done,
    {
        let ghost current = lsys@;
        match proceed_system(lsys, rules, ceiling, arithmetic) {
            Ok(()) => {},
            Err(error) => {
                proof {
                    assert(generation(rules@, old(lsys)@, (done + 1) as nat) == rewrite(
                        rules@,
                        current,
                    ));
                    assert(!admissible(
                        generation(rules@, old(lsys)@, (done + 1) as nat),
                        ceiling as int,
                    ));
                }
                return Err(error);
            },
        }
        done += 1;
    }
    Ok(())
}

/// The sample system after `generations` rewritings by [`rules1`].
///
/// The sample grammar answers every `Pop`, so the only thing that can stop
/// it is the ceiling.
pub fn model<P, M, T, C, S>(
    generations: usize,
    ceiling: usize,
    arithmetic: &Arithmetic<P, M, T, C, S>,
) -> (made: Result<LSystem, GrowthError>) where
    P: Fn(Scalar, Scalar) -> Scalar,
    M: Fn(Scalar, Scalar) -> Scalar,
    T: Fn(Scalar, Scalar) -> Scalar,
    C: Fn(Scalar) -> Scalar,
    S: Fn(Scalar) -> Scalar,

    requires
        arithmetic.total(),
    ensures
        made is Ok <==> forall|j: nat|
            1 <= j <= generations ==> (#[trigger] generation(rules1_map(), axiom_state(), j)).len()
                <= ceiling,
        match made {
            Ok(system) => {
                &&& system@ == generation(rules1_map(), axiom_state(), generations as nat)
                &&& generations == 0 ==> system.dimensions == (Size {
                    width: Scalar { bits: 0 },
                    height: Scalar { bits: TEN },
                })
                &&& generations > 0 ==> system.measured(arithmetic)
            },
            Err(error) => error == GrowthError::SymbolLimit,
        },
{
    let mut system = LSystem::initial();
    let rules = rules1_table();
    let grown = grow(&mut system, &rules, generations, ceiling, arithmetic);
    proof {
        law_sample_is_calm();
        assert forall|j: nat|
            well_nested(flatten(#[trigger] generation(rules1_map(), axiom_state(), j)), 0) by {
            law_never_underflows(rules1_map(), axiom_state(), j);
        }
        match grown {
            Ok(()) => {},
            Err(error) => {
                let reached = choose|reached: nat|
                    {
                        &&& reached < generations
                        &&& system@ == #[trigger] generation(rules1_map(), axiom_state(), reached)
                        &&& refused(rewrite(rules1_map(), system@), ceiling as int, error)
                    };
                let next = generation(rules1_map(), axiom_state(), reached + 1);
                assert(next == rewrite(rules1_map(), system@));
                lemma_refused_not_admissible(next, ceiling as int, error);
                assert(well_nested(flatten(next), 0));
            },
        }
    }
    match grown {
        Ok(()) => Ok(system),
        Err(error) => Err(error),
    }
}

} // verus!
