//! What holds of the interpretation as a whole, stated over its
//! specifications and proved.

use vstd::prelude::*;
use crate::extent::{enclose, Bounds};
use crate::grammar::generation;
use crate::nesting::{law_underflow_unique, underflows_at};
use crate::scalar::{Point, Rgb, Scalar};
use crate::symbol::{flatten, Action, FillColor, Symbol, Variables};
use crate::system::{position_of, Size, StackUnderflow};
use crate::turtle::{
    drawn, emitted, Arithmetic, Config, Displacement, Primitive, Turtle,
};

verus! {

/// Rewriting zero times leaves the state as it was.
pub proof fn law_zero_generations(table: Map<Variables, Seq<Symbol>>, start: Seq<Symbol>)
    ensures
        generation(table, start, 0) == start,
{
}

/// An action leaves the cursor's colour as it is: it turns, saves, or draws
/// in the cursor's colour.
pub open spec fn keeps_color(action: Action) -> bool {
    match action {
        Action::Rotate(_) => true,
        Action::Push => true,
        Action::Pop => false,
        Action::DrawLine(_, fill) => !(fill is Rgb),
        Action::DrawCircle(fill) => !(fill is Rgb),
    }
}

/// The colour that an action names, if it names one.
pub open spec fn named_color(action: Action) -> Option<Rgb> {
    match action {
        Action::DrawLine(_, FillColor::Rgb(red, green, blue)) => Some(Rgb { red, green, blue }),
        Action::DrawCircle(FillColor::Rgb(red, green, blue)) => Some(Rgb { red, green, blue }),
        _ => None,
    }
}

impl<P, M, T, C, S> Arithmetic<P, M, T, C, S> where
    P: Fn(Scalar, Scalar) -> Scalar,
    M: Fn(Scalar, Scalar) -> Scalar,
    T: Fn(Scalar, Scalar) -> Scalar,
    C: Fn(Scalar) -> Scalar,
    S: Fn(Scalar) -> Scalar,
 {
    /// Each operation has one result for each argument.
    pub open spec fn single_valued(&self) -> bool {
        &&& forall|a: Scalar, b: Scalar, one: Scalar, other: Scalar|
            call_ensures(self.sum, (a, b), one) && call_ensures(self.sum, (a, b), other) ==> one
                == other
        &&& forall|a: Scalar, b: Scalar, one: Scalar, other: Scalar|
            call_ensures(self.difference, (a, b), one) && call_ensures(
                self.difference,
                (a, b),
                other,
            ) ==> one == other
        &&& forall|a: Scalar, b: Scalar, one: Scalar, other: Scalar|
            call_ensures(self.product, (a, b), one) && call_ensures(self.product, (a, b), other)
                ==> one == other
        &&& forall|a: Scalar, one: Scalar, other: Scalar|
            call_ensures(self.cosine, (a,), one) && call_ensures(self.cosine, (a,), other) ==> one
                == other
        &&& forall|a: Scalar, one: Scalar, other: Scalar|
            call_ensures(self.sine, (a,), one) && call_ensures(self.sine, (a,), other) ==> one
                == other
    }

    /// With single-valued operations, a move ends at one point only.
    pub proof fn law_one_move(
        &self,
        from: Point,
        heading: Scalar,
        length: Scalar,
        one: Point,
        other: Point,
    )
        requires
            self.single_valued(),
            self.moved(from, heading, length, one),
            self.moved(from, heading, length, other),
        ensures
            one == other,
    {
        let a = choose|by: Displacement| #[trigger] self.displaces(from, heading, length, by, one);
        let b = choose|by: Displacement|
            #[trigger] self.displaces(from, heading, length, by, other);
        assert(a.cosine == b.cosine);
        assert(a.sine == b.sine);
        assert(a.dx == b.dx);
        assert(a.dy == b.dy);
    }

    /// With single-valued operations, an action takes a turtle to one turtle
    /// only.
    pub proof fn law_one_step(&self, before: Turtle, action: Action, one: Turtle, other: Turtle)
        requires
            self.single_valued(),
            self.step(before, action, one),
            self.step(before, action, other),
        ensures
            one == other,
    {
        match action {
            Action::DrawLine(length, _) => {
                self.law_one_move(
                    before.cursor.position,
                    before.cursor.radians,
                    length,
                    one.cursor.position,
                    other.cursor.position,
                );
            },
            _ => {},
        }
        assert(one.cursor == other.cursor);
        assert(one.stack =~= other.stack);
    }

    /// With single-valued operations, two runs of the same actions from the
    /// same turtle pass through the same turtles.
    pub proof fn law_one_trace(&self, actions: Seq<Action>, one: Seq<Turtle>, other: Seq<Turtle>)
        requires
            self.single_valued(),
            self.walk(actions, one),
            self.walk(actions, other),
            one.first() == other.first(),
        ensures
            one == other,
        decreases actions.len(),
    {
        if actions.len() > 0 {
            let n = actions.len() - 1;
            self.lemma_walk_shorter(actions, one);
            self.lemma_walk_shorter(actions, other);
            self.law_one_trace(actions.drop_last(), one.drop_last(), other.drop_last());
            assert(one[n] == one.drop_last()[n]);
            assert(other[n] == other.drop_last()[n]);
            self.law_one_step(one[n], actions[n], one[n + 1], other[n + 1]);
            assert forall|i: int| 0 <= i < one.len() implies one[i] == other[i] by {
                if i <= n {
                    assert(one[i] == one.drop_last()[i]);
                    assert(other[i] == other.drop_last()[i]);
                }
            }
        }
        assert(one =~= other);
    }

    /// Determinism: for a fixed start, rule table and number of
    /// generations, two interpretations with single-valued operations draw
    /// the same primitives and measure the same size.
    pub proof fn law_determinism(
        &self,
        table: Map<Variables, Seq<Symbol>>,
        start: Seq<Symbol>,
        n: nat,
        cursor: Config,
        first: Seq<Primitive>,
        second: Seq<Primitive>,
        first_size: Size,
        second_size: Size,
    )
        requires
            self.single_valued(),
            self.draws(flatten(generation(table, start, n)), cursor, first),
            self.draws(flatten(generation(table, start, n)), cursor, second),
            self.measures(flatten(generation(table, start, n)), cursor, first_size),
            self.measures(flatten(generation(table, start, n)), cursor, second_size),
        ensures
            first == second,
            first_size == second_size,
    {
        let actions = flatten(generation(table, start, n));
        let origin = Turtle { cursor, stack: Seq::empty() };
        let one = choose|trace: Seq<Turtle>|
            {
                &&& #[trigger] self.walk(actions, trace)
                &&& trace.first() == origin
                &&& first == drawn(actions, trace)
            };
        let other = choose|trace: Seq<Turtle>|
            {
                &&& #[trigger] self.walk(actions, trace)
                &&& trace.first() == origin
                &&& second == drawn(actions, trace)
            };
        self.law_one_trace(actions, one, other);
        let wide = choose|trace: Seq<Turtle>|
            {
                &&& #[trigger] self.walk(actions, trace)
                &&& trace.first() == origin
                &&& self.spans(enclose(Bounds::at(cursor.position), trace), first_size)
            };
        let tall = choose|trace: Seq<Turtle>|
            {
                &&& #[trigger] self.walk(actions, trace)
                &&& trace.first() == origin
                &&& self.spans(enclose(Bounds::at(cursor.position), trace), second_size)
            };
        self.law_one_trace(actions, wide, tall);
    }

    /// While the stack stays at least `kept` deep, its lowest `kept` entries
    /// stay what they are.
    pub proof fn lemma_stack_kept(
        &self,
        actions: Seq<Action>,
        trace: Seq<Turtle>,
        from: int,
        to: int,
        kept: int,
    )
        requires
            self.walk(actions, trace),
            0 <= from <= to <= actions.len(),
            0 <= kept,
            forall|k: int| from <= k <= to ==> (#[trigger] trace[k]).stack.len() >= kept,
        ensures
            trace[to].stack.take(kept) == trace[from].stack.take(kept),
        decreases to - from,
    {
        if from < to {
            self.lemma_stack_kept(actions, trace, from, to - 1, kept);
            assert(self.step_at(actions, trace, to - 1));
            assert(trace[to - 1].stack.len() >= kept);
            assert(trace[to].stack.len() >= kept);
            assert(trace[to].stack.take(kept) =~= trace[to - 1].stack.take(kept));
        }
    }

    /// A `Pop` restores the whole cursor that the `Push` it answers saved:
    /// position, heading and colour at once, whatever happened in between.
    /// The `Pop` answers the `Push` if the stack stays deeper in between
    /// than it was before the `Push`.
    pub proof fn law_pop_restores(
        &self,
        actions: Seq<Action>,
        trace: Seq<Turtle>,
        push: int,
        pop: int,
    )
        requires
            self.walk(actions, trace),
            0 <= push < pop < actions.len(),
            actions[push] == Action::Push,
            actions[pop] == Action::Pop,
            forall|k: int|
                push < k <= pop ==> (#[trigger] trace[k]).stack.len() > trace[push].stack.len(),
            trace[pop + 1].stack.len() == trace[push].stack.len(),
        ensures
            trace[pop + 1].cursor == trace[push].cursor,
            trace[pop + 1].stack == trace[push].stack,
    {
        let depth = trace[push].stack.len() as int;
        assert(self.step_at(actions, trace, push));
        assert(self.step_at(actions, trace, pop));
        assert(trace[push + 1].stack.len() > depth);
        self.lemma_stack_kept(actions, trace, push + 1, pop, depth + 1);
        assert(trace[pop].stack.len() == depth + 1);
        assert(trace[pop].stack.take(depth + 1) =~= trace[pop].stack);
        assert(trace[push + 1].stack.take(depth + 1) =~= trace[push + 1].stack);
        assert(trace[push + 1].stack.last() == trace[push].cursor);
        assert(trace[pop + 1].stack =~= trace[push].stack);
    }

    /// Colour inheritance: a line drawn with `Inherit` has the colour that
    /// the last drawing action before it named, as long as every action in
    /// between keeps the cursor's colour; a `Pop` does not.
    pub proof fn law_color_inheritance(
        &self,
        actions: Seq<Action>,
        trace: Seq<Turtle>,
        named: int,
        inherits: int,
    )
        requires
            self.walk(actions, trace),
            0 <= named < inherits < actions.len(),
            named_color(actions[named]) is Some,
            forall|k: int| named < k <= inherits ==> keeps_color(#[trigger] actions[k]),
            actions[inherits] is DrawLine,
        ensures
            trace[inherits + 1].cursor.color == named_color(actions[named])->0,
            emitted(trace[inherits], actions[inherits], trace[inherits + 1]) == seq![
                Primitive::Line {
                    start: trace[inherits].cursor.position,
                    end: trace[inherits + 1].cursor.position,
                    color: named_color(actions[named])->0,
                },
            ],
        decreases inherits - named,
    {
        assert(self.step_at(actions, trace, inherits));
        assert(keeps_color(actions[inherits]));
        self.lemma_color_kept(actions, trace, named, inherits - 1);
    }

    /// The cursor keeps a named colour over actions that keep it.
    pub proof fn lemma_color_kept(
        &self,
        actions: Seq<Action>,
        trace: Seq<Turtle>,
        named: int,
        last: int,
    )
        requires
            self.walk(actions, trace),
            0 <= named <= last < actions.len(),
            named_color(actions[named]) is Some,
            forall|k: int| named < k <= last ==> keeps_color(#[trigger] actions[k]),
        ensures
            trace[last + 1].cursor.color == named_color(actions[named])->0,
        decreases last - named,
    {
        assert(self.step_at(actions, trace, last));
        if last > named {
            assert(keeps_color(actions[last]));
            self.lemma_color_kept(actions, trace, named, last - 1);
        }
    }
}

/// The actions of a longer prefix of a generation start with those of a
/// shorter one.
pub proof fn lemma_offsets_grow(state: Seq<Symbol>, shorter: int, longer: int)
    requires
        0 <= shorter <= longer <= state.len(),
    ensures
        flatten(state.take(shorter)).len() <= flatten(state.take(longer)).len(),
        shorter < longer ==> flatten(state.take(shorter)).len() + state[shorter].actions().len()
            <= flatten(state.take(longer)).len(),
    decreases longer - shorter,
{
    if shorter < longer {
        assert(state.take(shorter + 1).drop_last() =~= state.take(shorter));
        lemma_offsets_grow(state, shorter + 1, longer);
    }
}

/// A symbol and an action in it that stand for a place among all actions.
pub open spec fn places(state: Seq<Symbol>, at: StackUnderflow) -> bool {
    &&& at.symbol < state.len()
    &&& at.action < state[at.symbol as int].actions().len()
}

/// An underflow is found at one place only: two reports for the same
/// generation name the same symbol and the same action.
pub proof fn law_underflow_reproducible(
    state: Seq<Symbol>,
    one: StackUnderflow,
    other: StackUnderflow,
)
    requires
        places(state, one),
        places(state, other),
        underflows_at(flatten(state), 0, position_of(state, one.symbol as int, one.action as int)),
        underflows_at(
            flatten(state),
            0,
            position_of(state, other.symbol as int, other.action as int),
        ),
    ensures
        one == other,
{
    law_underflow_unique(
        flatten(state),
        0,
        position_of(state, one.symbol as int, one.action as int),
        position_of(state, other.symbol as int, other.action as int),
    );
    if one.symbol < other.symbol {
        lemma_offsets_grow(state, one.symbol as int, other.symbol as int);
    }
    if other.symbol < one.symbol {
        lemma_offsets_grow(state, other.symbol as int, one.symbol as int);
    }
}

} // verus!
