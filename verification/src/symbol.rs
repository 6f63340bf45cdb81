//! The symbols of a grammar and the actions they carry.

use vstd::prelude::*;
use crate::scalar::Scalar;

verus! {

/// The non-terminal tags. The engine only ever compares two tags for
/// equality, so nothing in it depends on how many there are.
#[derive(Clone, Copy, Debug, PartialEq, Eq, Structural)]
pub enum Variables {
    A,
    B,
    C,
    D,
    E,
    F,
    G,
    H,
}

/// How a drawing action picks its colour.
#[derive(Clone, Copy, Debug, PartialEq, Eq, Structural)]
pub enum FillColor {
    /// Stands for a background colour. It resolves to the cursor's colour,
    /// exactly as `Inherit` does.
    Background,
    /// The colour the cursor has at that moment.
    Inherit,
    /// The given red, green and blue channels.
    Rgb(Scalar, Scalar, Scalar),
}

/// One instruction to the turtle.
#[derive(Clone, Copy, Debug, PartialEq, Eq, Structural)]
pub enum Action {
    /// Turn by an angle in radians.
    Rotate(Scalar),
    /// Draw a line of the given length along the heading and move to its end.
    DrawLine(Scalar, FillColor),
    /// Draw a circle around the current position.
    DrawCircle(FillColor),
    /// Save the cursor.
    Push,
    /// Restore the cursor saved last.
    Pop,
}

/// One symbol of a generation.
#[derive(Debug, PartialEq, Eq)]
pub enum LSystemSymbol {
    /// A non-terminal: rewriting replaces it by the production of its tag.
    Variable(Variables, Vec<Action>),
    /// A terminal: rewriting keeps it as it is.
    Constant(Vec<Action>),
}

/// What a symbol is, with its actions as a sequence.
pub enum Symbol {
    Variable(Variables, Seq<Action>),
    Constant(Seq<Action>),
}

impl Symbol {
    pub open spec fn actions(self) -> Seq<Action> {
        match self {
            Symbol::Variable(_, actions) => actions,
            Symbol::Constant(actions) => actions,
        }
    }
}

impl View for LSystemSymbol {
    type V = Symbol;

    open spec fn view(&self) -> Symbol {
        match *self {
            LSystemSymbol::Variable(variant, actions) => Symbol::Variable(variant, actions@),
            LSystemSymbol::Constant(actions) => Symbol::Constant(actions@),
        }
    }
}

/// The symbols of a generation, each by its view.
pub open spec fn symbols(state: Seq<LSystemSymbol>) -> Seq<Symbol> {
    state.map_values(|symbol: LSystemSymbol| symbol@)
}

/// All actions of a generation, in the order in which the turtle meets them.
pub open spec fn flatten(state: Seq<Symbol>) -> Seq<Action>
    decreases state.len(),
{
    if state.len() == 0 {
        Seq::empty()
    } else {
        flatten(state.drop_last()) + state.last().actions()
    }
}

/// Flattening distributes over concatenation.
pub proof fn lemma_flatten_concat(left: Seq<Symbol>, right: Seq<Symbol>)
    ensures
        flatten(left + right) == flatten(left) + flatten(right),
    decreases right.len(),
{
    if right.len() == 0 {
        assert(left + right =~= left);
        assert(flatten(left) + flatten(right) =~= flatten(left));
    } else {
        assert((left + right).drop_last() =~= left + right.drop_last());
        lemma_flatten_concat(left, right.drop_last());
        assert(flatten(left + right) =~= flatten(left) + flatten(right));
    }
}

/// A copy of a list of actions.
pub fn copy_actions(actions: &Vec<Action>) -> (copy: Vec<Action>)
    ensures
        copy@ == actions@,
{
    let mut copy: Vec<Action> = Vec::with_capacity(actions.len());
    let mut i: usize = 0;
    while i < actions.len()
        invariant
            i <= actions.len(),
            copy@ == actions@.take(i as int),
        decreases actions.len() - i,
    {
        copy.push(actions[i]);
        i += 1;
    }
    copy
}

impl LSystemSymbol {
    /// The actions the symbol carries.
    pub fn actions(&self) -> (actions: &Vec<Action>)
        ensures
            actions@ == self@.actions(),
    {
        match self {
            LSystemSymbol::Variable(_, actions) => actions,
            LSystemSymbol::Constant(actions) => actions,
        }
    }

    /// A symbol equal to this one, with a list of actions of its own.
    pub fn duplicate(&self) -> (copy: LSystemSymbol)
        ensures
            copy@ == self@,
    {
        match self {
            LSystemSymbol::Variable(variant, actions) => LSystemSymbol::Variable(
                *variant,
                copy_actions(actions),
            ),
            LSystemSymbol::Constant(actions) => LSystemSymbol::Constant(copy_actions(actions)),
        }
    }
}

impl Clone for LSystemSymbol {
    fn clone(&self) -> (copy: Self)
        ensures
            copy@ == self@,
    {
        self.duplicate()
    }
}

/// Appends a copy of every symbol of `source` to `target`, in order.
pub fn append_copies(target: &mut Vec<LSystemSymbol>, source: &Vec<LSystemSymbol>)
    ensures
        symbols(final(target)@) == symbols(old(target)@) + symbols(source@),
{
    let ghost given = symbols(target@);
    let mut i: usize = 0;
    proof {
        assert(given + symbols(source@).take(0) =~= given);
    }
    while i < source.len()
        invariant
            i <= source@.len(),
            given == symbols(old(target)@),
            symbols(target@) == given + symbols(source@).take(i as int),
        decreases source@.len() - i,
    {
        let ghost earlier = symbols(target@);
        target.push(source[i].duplicate());
        proof {
            assert(symbols(target@) =~= earlier.push(source@[i as int]@));
            assert(symbols(source@).take(i + 1) =~= symbols(source@).take(i as int).push(
                source@[i as int]@,
            ));
        }
        i += 1;
    }
    proof {
        assert(symbols(source@).take(i as int) =~= symbols(source@));
    }
}

} // verus!
