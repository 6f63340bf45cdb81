//! The extent of a drawing: the smallest upright box around every position
//! the cursor takes.

use vstd::prelude::*;
use crate::scalar::{lemma_lt_strict, lemma_lt_total, Point, Scalar};
use crate::symbol::{flatten, lemma_flatten_concat, Action};
use crate::system::{axiom_cursor, position_of, LSystem, Size, StackUnderflow};
use crate::nesting::{
    lemma_stack_depth_next, lemma_underflow_not_nested, lemma_well_nested_next, stack_depth,
    underflows_at, well_nested,
};
use crate::turtle::{get_color, Arithmetic, Config, Turtle};

verus! {

/// An upright box, by its lower left and upper right corners.
#[derive(Clone, Copy, Debug, PartialEq, Eq, Structural)]
pub struct Bounds {
    pub min: Point,
    pub max: Point,
}

impl Bounds {
    /// The box that holds one point only.
    pub open spec fn at(point: Point) -> Bounds {
        Bounds { min: point, max: point }
    }

    /// The box grown just enough to hold `point`. A coordinate that is a NaN
    /// moves no side.
    pub open spec fn grown(self, point: Point) -> Bounds {
        Bounds {
            min: Point {
                x: if point.x.lt(self.min.x) { point.x } else { self.min.x },
                y: if point.y.lt(self.min.y) { point.y } else { self.min.y },
            },
            max: Point {
                x: if self.max.x.lt(point.x) { point.x } else { self.max.x },
                y: if self.max.y.lt(point.y) { point.y } else { self.max.y },
            },
        }
    }

    /// No coordinate of `point` lies beyond a side of the box.
    pub open spec fn covers(self, point: Point) -> bool {
        &&& !point.x.lt(self.min.x)
        &&& !point.y.lt(self.min.y)
        &&& !self.max.x.lt(point.x)
        &&& !self.max.y.lt(point.y)
    }

    /// Grows the box just enough to hold `point`.
    pub fn stretch(&mut self, point: Point)
        ensures
            *final(self) == old(self).grown(point),
    {
        if point.x.less_than(self.min.x) {
            self.min.x = point.x;
        }
        if self.max.x.less_than(point.x) {
            self.max.x = point.x;
        }
        if point.y.less_than(self.min.y) {
            self.min.y = point.y;
        }
        if self.max.y.less_than(point.y) {
            self.max.y = point.y;
        }
    }
}

/// The box `from`, grown to hold the cursor's position at every entry of
/// `trace`.
pub open spec fn enclose(from: Bounds, trace: Seq<Turtle>) -> Bounds
    decreases trace.len(),
{
    if trace.len() == 0 {
        from
    } else {
        enclose(from, trace.drop_last()).grown(trace.last().cursor.position)
    }
}

/// A box covers exactly the points that do not make it grow.
pub proof fn lemma_covers_is_fixed(bounds: Bounds, point: Point)
    ensures
        bounds.covers(point) <==> bounds.grown(point) == bounds,
{
    lemma_lt_strict(point.x, bounds.min.x, point.x);
    lemma_lt_strict(point.y, bounds.min.y, point.y);
    lemma_lt_strict(bounds.max.x, point.x, bounds.max.x);
    lemma_lt_strict(bounds.max.y, point.y, bounds.max.y);
}

/// A box that grows keeps covering what it covered, and covers what it grew
/// for.
pub proof fn lemma_grown_covers(bounds: Bounds, point: Point, other: Point)
    ensures
        bounds.grown(point).covers(point),
        bounds.covers(other) ==> bounds.grown(point).covers(other),
        Bounds::at(point).covers(point),
{
    lemma_lt_strict(point.x, point.x, point.x);
    lemma_lt_strict(point.y, point.y, point.y);
    lemma_lt_strict(other.x, point.x, bounds.min.x);
    lemma_lt_strict(other.y, point.y, bounds.min.y);
    lemma_lt_strict(bounds.max.x, point.x, other.x);
    lemma_lt_strict(bounds.max.y, point.y, other.y);
}

/// Between numbers, a box covers the points that lie between its sides.
pub proof fn law_covers_between(bounds: Bounds, point: Point)
    requires
        !bounds.min.has_nan(),
        !bounds.max.has_nan(),
        !point.has_nan(),
    ensures
        bounds.covers(point) <==> {
            &&& bounds.min.x.le(point.x)
            &&& point.x.le(bounds.max.x)
            &&& bounds.min.y.le(point.y)
            &&& point.y.le(bounds.max.y)
        },
{
    lemma_lt_total(bounds.min.x, point.x);
    lemma_lt_total(point.x, bounds.max.x);
    lemma_lt_total(bounds.min.y, point.y);
    lemma_lt_total(point.y, bounds.max.y);
}

/// The box around a trace covers what the box it grew from covered, and
/// the position of every entry of the trace.
pub proof fn law_enclose_covers(from: Bounds, trace: Seq<Turtle>, held: Point, i: int)
    requires
        0 <= i < trace.len(),
    ensures
        from.covers(held) ==> enclose(from, trace).covers(held),
        enclose(from, trace).covers(trace[i].cursor.position),
    decreases trace.len(),
{
    let last = trace.last().cursor.position;
    let earlier = enclose(from, trace.drop_last());
    lemma_grown_covers(earlier, last, held);
    if trace.len() > 1 {
        law_enclose_covers(from, trace.drop_last(), held, 0);
    }
    if i < trace.len() - 1 {
        law_enclose_covers(from, trace.drop_last(), held, i);
        lemma_grown_covers(earlier, last, trace[i].cursor.position);
    }
}

/// A coordinate is one that the trace or the point `start` has: it is
/// `start`'s own, or that of a position in the trace.
pub open spec fn reached_x(start: Point, trace: Seq<Turtle>, x: Scalar) -> bool {
    x == start.x || exists|i: int|
        0 <= i < trace.len() && #[trigger] trace[i].cursor.position.x == x
}

/// As `reached_x`, for the other coordinate.
pub open spec fn reached_y(start: Point, trace: Seq<Turtle>, y: Scalar) -> bool {
    y == start.y || exists|i: int|
        0 <= i < trace.len() && #[trigger] trace[i].cursor.position.y == y
}

/// The box around a trace is tight: each of its sides lies on a coordinate
/// that the cursor had.
pub proof fn law_enclose_tight(start: Point, trace: Seq<Turtle>)
    ensures
        reached_x(start, trace, enclose(Bounds::at(start), trace).min.x),
        reached_x(start, trace, enclose(Bounds::at(start), trace).max.x),
        reached_y(start, trace, enclose(Bounds::at(start), trace).min.y),
        reached_y(start, trace, enclose(Bounds::at(start), trace).max.y),
    decreases trace.len(),
{
    if trace.len() > 0 {
        let shorter = trace.drop_last();
        let n = trace.len() - 1;
        let earlier = enclose(Bounds::at(start), shorter);
        law_enclose_tight(start, shorter);
        assert(trace[n].cursor.position == trace.last().cursor.position);
        assert forall|x: Scalar| reached_x(start, shorter, x) implies reached_x(
            start,
            trace,
            x,
        ) by {
            if x != start.x {
                let i = choose|i: int|
                    0 <= i < shorter.len() && #[trigger] shorter[i].cursor.position.x == x;
                assert(trace[i].cursor.position.x == x);
            }
        }
        assert forall|y: Scalar| reached_y(start, shorter, y) implies reached_y(
            start,
            trace,
            y,
        ) by {
            if y != start.y {
                let i = choose|i: int|
                    0 <= i < shorter.len() && #[trigger] shorter[i].cursor.position.y == y;
                assert(trace[i].cursor.position.y == y);
            }
        }
    }
}

impl<P, M, T, C, S> Arithmetic<P, M, T, C, S> where
    P: Fn(Scalar, Scalar) -> Scalar,
    M: Fn(Scalar, Scalar) -> Scalar,
    T: Fn(Scalar, Scalar) -> Scalar,
    C: Fn(Scalar) -> Scalar,
    S: Fn(Scalar) -> Scalar,
 {
    /// `size` can be the width and height of `bounds`.
    pub open spec fn spans(&self, bounds: Bounds, size: Size) -> bool {
        &&& call_ensures(self.difference, (bounds.max.x, bounds.min.x), size.width)
        &&& call_ensures(self.difference, (bounds.max.y, bounds.min.y), size.height)
    }

    /// Running `actions` from the cursor `start`, with nothing saved, can
    /// give a drawing of the size `size`.
    pub open spec fn measures(&self, actions: Seq<Action>, start: Config, size: Size) -> bool {
        exists|trace: Seq<Turtle>|
            {
                &&& #[trigger] self.walk(actions, trace)
                &&& trace.first() == (Turtle { cursor: start, stack: Seq::empty() })
                &&& self.spans(enclose(Bounds::at(start.position), trace), size)
            }
    }
}

/// The size of the drawing of a generation: the cursor starts at the origin
/// pointing up, the actions are run as in drawing, and the box is taken
/// around every position the cursor comes to. Circles do not widen it.
///
/// A `Pop` that finds nothing saved ends the pass with its place.
pub fn get_drawing_dimensions<P, M, T, C, S>(
    lsys: &LSystem,
    arithmetic: &Arithmetic<P, M, T, C, S>,
) -> (measured: Result<Size, StackUnderflow>) where
    P: Fn(Scalar, Scalar) -> Scalar,
    M: Fn(Scalar, Scalar) -> Scalar,
    T: Fn(Scalar, Scalar) -> Scalar,
    C: Fn(Scalar) -> Scalar,
    S: Fn(Scalar) -> Scalar,

    requires
        arithmetic.total(),
    ensures
        measured is Ok <==> well_nested(lsys.actions(), 0),
        match measured {
            Ok(size) => arithmetic.measures(lsys.actions(), axiom_cursor(), size),
            Err(e) => {
                &&& e.symbol < lsys.state@.len()
                &&& e.action < lsys@[e.symbol as int].actions().len()
                &&& underflows_at(
                    lsys.actions(),
                    0,
                    position_of(lsys@, e.symbol as int, e.action as int),
                )
            },
        },
{
    let mut curr_state = LSystem::axiom_config();
    let mut stack: Vec<Config> = Vec::new();
    let mut bounds = Bounds { min: curr_state.position, max: curr_state.position };
    let ghost first = Bounds::at(axiom_cursor().position);
    let ghost mut trace: Seq<Turtle> = seq![Turtle { cursor: curr_state, stack: Seq::empty() }];
    let ghost mut ran: Seq<Action> = Seq::empty();
    proof {
        assert(lsys@.take(0) =~= Seq::empty());
        assert(ran.take(0) =~= ran);
        assert(trace.drop_last() =~= Seq::empty());
        assert(enclose(first, trace.drop_last()) == first);
        lemma_grown_covers(first, axiom_cursor().position, axiom_cursor().position);
        lemma_covers_is_fixed(first, axiom_cursor().position);
        assert forall|k: int| 0 <= k <= ran.len() implies 0 + #[trigger] stack_depth(ran.take(k))
            >= 0 by {
            assert(ran.take(k) =~= ran);
        }
    }
    let mut s: usize = 0;
    while s < lsys.state.len()
        invariant
            s <= lsys.state@.len(),
            arithmetic.total(),
            first == Bounds::at(axiom_cursor().position),
            ran == flatten(lsys@.take(s as int)),
            arithmetic.walk(ran, trace),
            trace.first() == (Turtle { cursor: axiom_cursor(), stack: Seq::empty() }),
            trace.last() == (Turtle { cursor: curr_state, stack: stack@ }),
            bounds == enclose(first, trace),
            bounds.covers(curr_state.position),
            forall|j: int| 0 <= j < stack@.len() ==> bounds.covers(#[trigger] stack@[j].position),
            stack@.len() == stack_depth(ran),
            well_nested(ran, 0),
        decreases lsys.state@.len() - s,
    {
        let actions = lsys.state[s].actions();
        let ghost done = ran;
        let mut i: usize = 0;
        proof {
            assert(actions@.take(0) =~= Seq::empty());
            assert(done + actions@.take(0) =~= done);
        }
        while i < actions.len()
            invariant
                i <= actions.len(),
                s < lsys.state@.len(),
                actions@ == lsys@[s as int].actions(),
                done == flatten(lsys@.take(s as int)),
                arithmetic.total(),
                first == Bounds::at(axiom_cursor().position),
                ran == done + actions@.take(i as int),
                arithmetic.walk(ran, trace),
                trace.first() == (Turtle { cursor: axiom_cursor(), stack: Seq::empty() }),
                trace.last() == (Turtle { cursor: curr_state, stack: stack@ }),
                bounds == enclose(first, trace),
                bounds.covers(curr_state.position),
                forall|j: int|
                    0 <= j < stack@.len() ==> bounds.covers(#[trigger] stack@[j].position),
                stack@.len() == stack_depth(ran),
                well_nested(ran, 0),
            decreases actions.len() - i,
        {
            let ghost here = Turtle { cursor: curr_state, stack: stack@ };
            let ghost before = bounds;
            match actions[i] {
                Action::DrawLine(length, fill) => {
                    let color = get_color(&curr_state, fill);
                    curr_state.position = arithmetic.advance(
                        curr_state.position,
                        curr_state.radians,
                        length,
                    );
                    curr_state.color = color;
                    bounds.stretch(curr_state.position);
                    proof {
                        assert forall|j: int| 0 <= j < stack@.len() implies bounds.covers(
                            #[trigger] stack@[j].position,
                        ) by {
                            lemma_grown_covers(before, curr_state.position, stack@[j].position);
                        }
                        lemma_grown_covers(before, curr_state.position, curr_state.position);
                    }
                },
                Action::DrawCircle(fill) => {
                    curr_state.color = get_color(&curr_state, fill);
                },
                Action::Rotate(angle) => {
                    curr_state.radians = (arithmetic.sum)(curr_state.radians, angle);
                },
                Action::Push => {
                    stack.push(curr_state);
                },
                Action::Pop => {
                    match stack.pop() {
                        Some(restored) => {
                            curr_state = restored;
                        },
                        None => {
                            proof {
                                let rest = actions@.skip(i as int) + flatten(
                                    lsys@.skip(s + 1),
                                );
                                assert(lsys@.take(s + 1).drop_last() =~= lsys@.take(s as int));
                                assert(lsys@ =~= lsys@.take(s + 1) + lsys@.skip(s + 1));
                                lemma_flatten_concat(lsys@.take(s + 1), lsys@.skip(s + 1));
                                assert(lsys.actions() =~= ran + rest);
                                assert(lsys.actions().take(ran.len() as int) =~= ran);
                                lemma_underflow_not_nested(lsys.actions(), 0, ran.len() as int);
                            }
                            return Err(StackUnderflow { symbol: s, action: i });
                        },
                    }
                },
            }
            proof {
                let there = Turtle { cursor: curr_state, stack: stack@ };
                let next = ran.push(actions@[i as int]);
                assert(arithmetic.step(here, actions@[i as int], there));
                arithmetic.lemma_walk_longer(ran, trace, actions@[i as int], there);
                assert(next =~= done + actions@.take(i + 1));
                assert(trace.push(there).drop_last() =~= trace);
                lemma_covers_is_fixed(before, curr_state.position);
                assert(bounds == enclose(first, trace.push(there)));
                assert(next.take(ran.len() as int) =~= ran);
                assert(next.take(ran.len() as int + 1) =~= next);
                lemma_stack_depth_next(next, ran.len() as int);
                lemma_well_nested_next(next, 0, ran.len() as int);
                trace = trace.push(there);
                ran = next;
            }
            i += 1;
        }
        proof {
            assert(actions@.take(i as int) =~= actions@);
            assert(lsys@.take(s + 1).drop_last() =~= lsys@.take(s as int));
        }
        s += 1;
    }
    proof {
        assert(lsys@.take(s as int) =~= lsys@);
    }
    let width = (arithmetic.difference)(bounds.max.x, bounds.min.x);
    let height = (arithmetic.difference)(bounds.max.y, bounds.min.y);
    Ok(Size { width, height })
}

} // verus!
