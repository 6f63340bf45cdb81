//! The turtle: a cursor, a stack of saved cursors, and what one action does
//! to them.
//!
//! Sums, products, cosines and sines are the caller's, who supplies them as
//! an [`Arithmetic`]. Everything else is decided here: what is added to what
//! when the turtle turns or moves, which colour a drawing action gets, what
//! is saved and restored, what is emitted and in which order, and where a
//! `Pop` finds nothing to restore.

use vstd::prelude::*;
use crate::scalar::{Point, Rgb, Scalar, FIVE};
use crate::nesting::{
    lemma_stack_depth_next, lemma_underflow_not_nested, lemma_well_nested_next, stack_depth,
    underflows_at, well_nested,
};
use crate::symbol::{Action, FillColor};

verus! {

/// The radius of every circle, 5 units.
pub const CIRCLE_RADIUS: u32 = FIVE;

/// The cursor: where the turtle is, where it points and what it draws with.
#[derive(Clone, Copy, Debug, PartialEq, Eq, Structural)]
pub struct Config {
    pub position: Point,
    pub radians: Scalar,
    pub color: Rgb,
}

/// What the turtle emits.
#[derive(Clone, Copy, Debug, PartialEq, Eq, Structural)]
pub enum Primitive {
    Line { start: Point, end: Point, color: Rgb },
    Circle { center: Point, radius: Scalar, color: Rgb },
}

/// The arithmetic on numbers, which the library leaves to its caller.
///
/// * `sum(a, b)` is `a + b`, and `difference(a, b)` is `a - b`.
/// * `product(a, b)` is `a * b`.
/// * `cosine(a)` and `sine(a)` are the cosine and the sine of `a` radians.
///
/// The library decides what is added to what; what a sum is, it takes from
/// here.
pub struct Arithmetic<P, M, T, C, S> {
    pub sum: P,
    pub difference: M,
    pub product: T,
    pub cosine: C,
    pub sine: S,
}

/// The numbers that a move goes through: cosine and sine of the heading,
/// and the two of them times the length.
pub struct Displacement {
    pub cosine: Scalar,
    pub sine: Scalar,
    pub dx: Scalar,
    pub dy: Scalar,
}

/// The state of an interpretation: the cursor and the saved cursors, the
/// one saved last at the end.
pub struct Turtle {
    pub cursor: Config,
    pub stack: Seq<Config>,
}

/// The colour that a fill mode stands for, given the cursor's colour.
pub open spec fn resolve(current: Rgb, fill: FillColor) -> Rgb {
    match fill {
        FillColor::Inherit => current,
        FillColor::Background => current,
        FillColor::Rgb(red, green, blue) => Rgb { red, green, blue },
    }
}

/// What one action emits, given the turtle before and after it.
pub open spec fn emitted(before: Turtle, action: Action, after: Turtle) -> Seq<Primitive> {
    match action {
        Action::DrawLine(_, _) => seq![
            Primitive::Line {
                start: before.cursor.position,
                end: after.cursor.position,
                color: after.cursor.color,
            },
        ],
        Action::DrawCircle(_) => seq![
            Primitive::Circle {
                center: before.cursor.position,
                radius: Scalar { bits: CIRCLE_RADIUS },
                color: after.cursor.color,
            },
        ],
        _ => Seq::empty(),
    }
}

/// Everything emitted along a trace, in order. `trace` holds the turtle
/// before the first action and after each one.
pub open spec fn drawn(actions: Seq<Action>, trace: Seq<Turtle>) -> Seq<Primitive>
    decreases actions.len(),
{
    if actions.len() == 0 {
        Seq::empty()
    } else {
        let last = actions.len() - 1;
        drawn(actions.drop_last(), trace.drop_last()) + emitted(
            trace[last],
            actions[last],
            trace[last + 1],
        )
    }
}

impl<P, M, T, C, S> Arithmetic<P, M, T, C, S> where
    P: Fn(Scalar, Scalar) -> Scalar,
    M: Fn(Scalar, Scalar) -> Scalar,
    T: Fn(Scalar, Scalar) -> Scalar,
    C: Fn(Scalar) -> Scalar,
    S: Fn(Scalar) -> Scalar,
 {
    /// The operations accept every argument.
    pub open spec fn total(&self) -> bool {
        &&& forall|a: Scalar, b: Scalar| call_requires(self.sum, (a, b))
        &&& forall|a: Scalar, b: Scalar| call_requires(self.difference, (a, b))
        &&& forall|a: Scalar, b: Scalar| call_requires(self.product, (a, b))
        &&& forall|a: Scalar| call_requires(self.cosine, (a,))
        &&& forall|a: Scalar| call_requires(self.sine, (a,))
    }

    /// A move of `length` from `from` in the direction `heading` can go
    /// through `by` and end at `to`: the displacement is the cosine and the
    /// sine of the heading, each times the length, and it is added to the
    /// position coordinate by coordinate.
    pub open spec fn displaces(
        &self,
        from: Point,
        heading: Scalar,
        length: Scalar,
        by: Displacement,
        to: Point,
    ) -> bool {
        &&& call_ensures(self.cosine, (heading,), by.cosine)
        &&& call_ensures(self.sine, (heading,), by.sine)
        &&& call_ensures(self.product, (by.cosine, length), by.dx)
        &&& call_ensures(self.product, (by.sine, length), by.dy)
        &&& call_ensures(self.sum, (from.x, by.dx), to.x)
        &&& call_ensures(self.sum, (from.y, by.dy), to.y)
    }

    /// A move of `length` from `from` in the direction `heading` can end at
    /// `to`.
    pub open spec fn moved(&self, from: Point, heading: Scalar, length: Scalar, to: Point) -> bool {
        exists|by: Displacement| #[trigger] self.displaces(from, heading, length, by, to)
    }

    /// `action` can take the turtle from `before` to `after`.
    ///
    /// A `Pop` on an empty stack takes it nowhere.
    pub open spec fn step(&self, before: Turtle, action: Action, after: Turtle) -> bool {
        match action {
            Action::Rotate(angle) => {
                &&& call_ensures(self.sum, (before.cursor.radians, angle), after.cursor.radians)
                &&& after.cursor.position == before.cursor.position
                &&& after.cursor.color == before.cursor.color
                &&& after.stack == before.stack
            },
            Action::DrawLine(length, fill) => {
                &&& self.moved(
                    before.cursor.position,
                    before.cursor.radians,
                    length,
                    after.cursor.position,
                )
                &&& after.cursor.radians == before.cursor.radians
                &&& after.cursor.color == resolve(before.cursor.color, fill)
                &&& after.stack == before.stack
            },
            Action::DrawCircle(fill) => {
                &&& after.cursor.position == before.cursor.position
                &&& after.cursor.radians == before.cursor.radians
                &&& after.cursor.color == resolve(before.cursor.color, fill)
                &&& after.stack == before.stack
            },
            Action::Push => {
                &&& after.cursor == before.cursor
                &&& after.stack == before.stack.push(before.cursor)
            },
            Action::Pop => {
                &&& before.stack.len() > 0
                &&& after.cursor == before.stack.last()
                &&& after.stack == before.stack.drop_last()
            },
        }
    }

    /// `trace` is a run of `actions`: it starts with the turtle before the
    /// first action, and each action takes one entry to the next.
    pub open spec fn walk(&self, actions: Seq<Action>, trace: Seq<Turtle>) -> bool {
        &&& trace.len() == actions.len() + 1
        &&& forall|i: int| 0 <= i < actions.len() ==> #[trigger] self.step_at(actions, trace, i)
    }

    /// Action `i` takes entry `i` of `trace` to the next.
    pub open spec fn step_at(&self, actions: Seq<Action>, trace: Seq<Turtle>, i: int) -> bool {
        self.step(trace[i], actions[i], trace[i + 1])
    }

    /// Running `actions` from the cursor `start`, with nothing saved, can emit
    /// `output`.
    pub open spec fn draws(
        &self,
        actions: Seq<Action>,
        start: Config,
        output: Seq<Primitive>,
    ) -> bool {
        exists|trace: Seq<Turtle>|
            {
                &&& #[trigger] self.walk(actions, trace)
                &&& trace.first() == (Turtle { cursor: start, stack: Seq::empty() })
                &&& output == drawn(actions, trace)
            }
    }

    /// Running `actions` can take the turtle from `before` to `after` and
    /// emit `output` on the way.
    pub open spec fn runs(
        &self,
        actions: Seq<Action>,
        before: Turtle,
        after: Turtle,
        output: Seq<Primitive>,
    ) -> bool {
        exists|trace: Seq<Turtle>|
            {
                &&& #[trigger] self.walk(actions, trace)
                &&& trace.first() == before
                &&& trace.last() == after
                &&& output == drawn(actions, trace)
            }
    }
}

impl<P, M, T, C, S> Arithmetic<P, M, T, C, S> where
    P: Fn(Scalar, Scalar) -> Scalar,
    M: Fn(Scalar, Scalar) -> Scalar,
    T: Fn(Scalar, Scalar) -> Scalar,
    C: Fn(Scalar) -> Scalar,
    S: Fn(Scalar) -> Scalar,
 {
    /// The point `length` away from `position` in the direction `heading`.
    pub fn advance(&self, position: Point, heading: Scalar, length: Scalar) -> (end: Point)
        requires
            self.total(),
        ensures
            self.moved(position, heading, length, end),
    {
        let cosine = (self.cosine)(heading);
        let sine = (self.sine)(heading);
        let dx = (self.product)(cosine, length);
        let dy = (self.product)(sine, length);
        let end = Point { x: (self.sum)(position.x, dx), y: (self.sum)(position.y, dy) };
        proof {
            let by = Displacement { cosine, sine, dx, dy };
            assert(self.displaces(position, heading, length, by, end));
        }
        end
    }
}

/// The colour a drawing action uses: the explicit one if it names one, the
/// cursor's otherwise.
pub fn get_color(curr_state: &Config, color: FillColor) -> (resolved: Rgb)
    ensures
        resolved == resolve(curr_state.color, color),
{
    match color {
        FillColor::Inherit => curr_state.color,
        FillColor::Background => curr_state.color,
        FillColor::Rgb(red, green, blue) => Rgb { red, green, blue },
    }
}

/// What two traces emit, the second starting where the first ends, is what
/// the joined trace emits.
pub proof fn lemma_drawn_concat(
    first: Seq<Action>,
    second: Seq<Action>,
    head: Seq<Turtle>,
    tail: Seq<Turtle>,
)
    requires
        head.len() == first.len() + 1,
        tail.len() == second.len() + 1,
        head.last() == tail.first(),
    ensures
        drawn(first + second, head + tail.drop_first()) == drawn(first, head) + drawn(second, tail),
    decreases second.len(),
{
    let joined = head + tail.drop_first();
    if second.len() == 0 {
        assert(first + second =~= first);
        assert(joined =~= head);
        assert(drawn(first, head) + drawn(second, tail) =~= drawn(first, head));
    } else {
        let last = second.len() - 1;
        assert((first + second).drop_last() =~= first + second.drop_last());
        assert(joined.drop_last() =~= head + tail.drop_last().drop_first());
        lemma_drawn_concat(first, second.drop_last(), head, tail.drop_last());
        assert(joined[first.len() + last] == tail[last]);
        assert(joined[first.len() + last + 1] == tail[last + 1]);
        assert(drawn(first + second, joined) =~= drawn(first, head) + drawn(second, tail));
    }
}

impl<P, M, T, C, S> Arithmetic<P, M, T, C, S> where
    P: Fn(Scalar, Scalar) -> Scalar,
    M: Fn(Scalar, Scalar) -> Scalar,
    T: Fn(Scalar, Scalar) -> Scalar,
    C: Fn(Scalar) -> Scalar,
    S: Fn(Scalar) -> Scalar,
 {
    /// A run without its last action is a run, and the last action takes its
    /// last turtle but one to its last.
    pub proof fn lemma_walk_shorter(&self, actions: Seq<Action>, trace: Seq<Turtle>)
        requires
            self.walk(actions, trace),
            actions.len() > 0,
        ensures
            self.walk(actions.drop_last(), trace.drop_last()),
            self.step(trace[actions.len() - 1], actions.last(), trace.last()),
    {
        let shorter = actions.drop_last();
        let earlier = trace.drop_last();
        assert forall|i: int| 0 <= i < shorter.len() implies #[trigger] self.step_at(
            shorter,
            earlier,
            i,
        ) by {
            assert(self.step_at(actions, trace, i));
        }
        assert(self.step_at(actions, trace, actions.len() - 1));
    }

    /// A run goes on by one action that takes its last turtle further, and
    /// then emits what that action emits as well.
    pub proof fn lemma_walk_longer(
        &self,
        actions: Seq<Action>,
        trace: Seq<Turtle>,
        action: Action,
        next: Turtle,
    )
        requires
            self.walk(actions, trace),
            self.step(trace.last(), action, next),
        ensures
            self.walk(actions.push(action), trace.push(next)),
            drawn(actions.push(action), trace.push(next)) == drawn(actions, trace) + emitted(
                trace.last(),
                action,
                next,
            ),
    {
        let more = actions.push(action);
        let longer = trace.push(next);
        assert forall|i: int| 0 <= i < more.len() implies #[trigger] self.step_at(
            more,
            longer,
            i,
        ) by {
            if i < actions.len() {
                assert(self.step_at(actions, trace, i));
            }
        }
        assert(more.drop_last() =~= actions);
        assert(longer.drop_last() =~= trace);
    }

    /// A run of one list followed by a run of another is a run of both.
    pub proof fn lemma_runs_concat(
        &self,
        first: Seq<Action>,
        second: Seq<Action>,
        before: Turtle,
        between: Turtle,
        after: Turtle,
        early: Seq<Primitive>,
        late: Seq<Primitive>,
    )
        requires
            self.runs(first, before, between, early),
            self.runs(second, between, after, late),
        ensures
            self.runs(first + second, before, after, early + late),
    {
        let head = choose|trace: Seq<Turtle>|
            {
                &&& #[trigger] self.walk(first, trace)
                &&& trace.first() == before
                &&& trace.last() == between
                &&& early == drawn(first, trace)
            };
        let tail = choose|trace: Seq<Turtle>|
            {
                &&& #[trigger] self.walk(second, trace)
                &&& trace.first() == between
                &&& trace.last() == after
                &&& late == drawn(second, trace)
            };
        let joined = head + tail.drop_first();
        let actions = first + second;
        assert forall|i: int| 0 <= i < actions.len() implies #[trigger] self.step_at(
            actions,
            joined,
            i,
        ) by {
            if i < first.len() {
                assert(self.step_at(first, head, i));
            } else {
                let j = i - first.len();
                assert(self.step_at(second, tail, j));
                assert(joined[i] == tail[j]);
            }
        }
        lemma_drawn_concat(first, second, head, tail);
        assert(self.walk(actions, joined));
        assert(joined.last() == after);
    }

    /// What a run leaves on the stack, and that it never underflows.
    pub proof fn lemma_runs_depth(
        &self,
        actions: Seq<Action>,
        before: Turtle,
        after: Turtle,
        output: Seq<Primitive>,
    )
        requires
            self.runs(actions, before, after, output),
        ensures
            after.stack.len() == before.stack.len() + stack_depth(actions),
            well_nested(actions, before.stack.len() as int),
    {
        let trace = choose|trace: Seq<Turtle>|
            {
                &&& #[trigger] self.walk(actions, trace)
                &&& trace.first() == before
                &&& trace.last() == after
                &&& output == drawn(actions, trace)
            };
        self.lemma_walk_depth(actions, trace);
    }

    /// In a run, the number of saved cursors follows the depth of the
    /// actions, and no `Pop` finds the stack empty.
    pub proof fn lemma_walk_depth(&self, actions: Seq<Action>, trace: Seq<Turtle>)
        requires
            self.walk(actions, trace),
        ensures
            trace.last().stack.len() == trace.first().stack.len() + stack_depth(actions),
            well_nested(actions, trace.first().stack.len() as int),
        decreases actions.len(),
    {
        let saved = trace.first().stack.len() as int;
        if actions.len() == 0 {
            assert forall|k: int| 0 <= k <= actions.len() implies saved + #[trigger] stack_depth(
                actions.take(k),
            ) >= 0 by {
                assert(actions.take(k) =~= actions);
            }
        } else {
            let n = actions.len() - 1;
            let shorter = actions.drop_last();
            let earlier = trace.drop_last();
            self.lemma_walk_shorter(actions, trace);
            self.lemma_walk_depth(shorter, earlier);
            assert(actions.take(n) =~= shorter);
            assert(actions.take(n + 1) =~= actions);
            lemma_well_nested_next(actions, saved, n);
        }
    }
}

/// Runs the actions of one symbol: moves the cursor, saves and restores it,
/// and appends to `out` what the actions draw.
///
/// It stops at the first `Pop` that finds nothing saved and returns that
/// action's index; cursor, stack and `out` are then as the actions before it
/// left them.
pub fn process_actions<P, M, T, C, S>(
    out: &mut Vec<Primitive>,
    curr_state: &mut Config,
    stack: &mut Vec<Config>,
    actions: &[Action],
    arithmetic: &Arithmetic<P, M, T, C, S>,
) -> (halted: Result<(), usize>) where
    P: Fn(Scalar, Scalar) -> Scalar,
    M: Fn(Scalar, Scalar) -> Scalar,
    T: Fn(Scalar, Scalar) -> Scalar,
    C: Fn(Scalar) -> Scalar,
    S: Fn(Scalar) -> Scalar,

    requires
        arithmetic.total(),
    ensures
        halted is Ok <==> well_nested(actions@, old(stack)@.len() as int),
        old(out)@.len() <= final(out)@.len(),
        final(out)@.take(old(out)@.len() as int) == old(out)@,
        match halted {
            Ok(()) => {
                arithmetic.runs(
                    actions@,
                    Turtle { cursor: *old(curr_state), stack: old(stack)@ },
                    Turtle { cursor: *final(curr_state), stack: final(stack)@ },
                    final(out)@.skip(old(out)@.len() as int),
                )
            },
            Err(k) => {
                &&& underflows_at(actions@, old(stack)@.len() as int, k as int)
                &&& arithmetic.runs(
                    actions@.take(k as int),
                    Turtle { cursor: *old(curr_state), stack: old(stack)@ },
                    Turtle { cursor: *final(curr_state), stack: final(stack)@ },
                    final(out)@.skip(old(out)@.len() as int),
                )
            },
        },
{
    let ghost before = Turtle { cursor: *curr_state, stack: stack@ };
    let ghost given = out@;
    let ghost saved = stack@.len() as int;
    let ghost mut trace: Seq<Turtle> = seq![before];
    let mut i: usize = 0;
    while i < actions.len()
        invariant
            i <= actions.len(),
            arithmetic.total(),
            given == old(out)@,
            saved == old(stack)@.len(),
            before == (Turtle { cursor: *old(curr_state), stack: old(stack)@ }),
            arithmetic.walk(actions@.take(i as int), trace),
            trace.first() == before,
            trace.last() == (Turtle { cursor: *curr_state, stack: stack@ }),
            out@ == given + drawn(actions@.take(i as int), trace),
            stack@.len() == saved + stack_depth(actions@.take(i as int)),
            well_nested(actions@.take(i as int), saved),
        decreases actions.len() - i,
    {
        let ghost here = Turtle { cursor: *curr_state, stack: stack@ };
        match actions[i] {
            Action::DrawLine(length, fill) => {
                let color = get_color(curr_state, fill);
                let end = arithmetic.advance(curr_state.position, curr_state.radians, length);
                out.push(Primitive::Line { start: curr_state.position, end, color });
                curr_state.position = end;
                curr_state.color = color;
            },
            Action::DrawCircle(fill) => {
                let color = get_color(curr_state, fill);
                curr_state.color = color;
                out.push(
                    Primitive::Circle {
                        center: curr_state.position,
                        radius: Scalar { bits: CIRCLE_RADIUS },
                        color,
                    },
                );
            },
            Action::Rotate(angle) => {
                curr_state.radians = (arithmetic.sum)(curr_state.radians, angle);
            },
            Action::Push => {
                stack.push(*curr_state);
            },
            Action::Pop => {
                match stack.pop() {
                    Some(restored) => {
                        *curr_state = restored;
                    },
                    None => {
                        proof {
                            assert(given + drawn(actions@.take(i as int), trace) =~= out@);
                            assert(out@.skip(given.len() as int) =~= drawn(
                                actions@.take(i as int),
                                trace,
                            ));
                            assert(out@.take(given.len() as int) =~= given);
                            lemma_underflow_not_nested(actions@, saved, i as int);
                        }
                        return Err(i);
                    },
                }
            },
        }
        proof {
            let there = Turtle { cursor: *curr_state, stack: stack@ };
            assert(arithmetic.step(here, actions@[i as int], there));
            arithmetic.lemma_walk_longer(actions@.take(i as int), trace, actions@[i as int], there);
            assert(actions@.take(i + 1) =~= actions@.take(i as int).push(actions@[i as int]));
            lemma_stack_depth_next(actions@, i as int);
            lemma_well_nested_next(actions@, saved, i as int);
            trace = trace.push(there);
        }
        i += 1;
    }
    proof {
        assert(actions@.take(i as int) =~= actions@);
        assert(out@.skip(given.len() as int) =~= drawn(actions@, trace));
        assert(out@.take(given.len() as int) =~= given);
    }
    Ok(())
}

} // verus!
