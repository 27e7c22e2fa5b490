//! Deterministic automata with effects, and combinators over them.
//!
//! An automaton steps from a state over an alphabet symbol, either refusing
//! the symbol or producing a successor state together with an effect.  Each
//! implementation carries specification-level forms of its initial state,
//! transition and acceptance functions, against which the executable
//! methods are verified.

use core::cmp::Ordering;
use core::marker::PhantomData;
use vstd::prelude::*;
use vstd::std_specs::cmp::{OrdSpec, PartialEqSpec};

verus! {

/// A deterministic automaton with effects.
pub trait Automaton {
    /// Input symbols.
    type Alphabet;

    /// States.
    type State;

    /// Effect emitted by each accepted transition.
    type Effect;

    /// When the automaton's answers are pinned by its specification
    /// functions (for instance, when a comparison-based automaton's symbol
    /// type has specified comparisons).
    spec fn wf(&self) -> bool;

    /// States on which stepping is meaningful.
    spec fn state_ok(&self, state: Self::State) -> bool;

    /// The initial state, as a mathematical value.
    spec fn spec_initial(&self) -> Self::State;

    /// The transition function, as a mathematical function.
    spec fn spec_next(&self, state: Self::State, alph: Self::Alphabet) -> Option<
        (Self::State, Self::Effect),
    >;

    /// The acceptance predicate, as a mathematical function.
    spec fn spec_accept(&self, state: Self::State) -> bool;

    /// The initial state.  It must be meaningful to step from.
    fn initial(&self) -> (r: Self::State)
        requires
            self.wf(),
        ensures
            r == self.spec_initial(),
            self.state_ok(r),
    ;

    /// Steps from `state` over `alph`; `None` refuses the symbol.
    fn next(&self, state: &Self::State, alph: &Self::Alphabet) -> (r: Option<
        (Self::State, Self::Effect),
    >)
        requires
            self.wf(),
            self.state_ok(*state),
        ensures
            r == self.spec_next(*state, *alph),
    ;

    /// Whether `state` is accepting.
    fn accept(&self, state: &Self::State) -> (r: bool)
        requires
            self.wf(),
            self.state_ok(*state),
        ensures
            r == self.spec_accept(*state),
    ;
}

/// Product over a shared alphabet, accepting when both parts accept.
pub struct IntersectionAutomaton<X: Automaton, Y: Automaton>(pub X, pub Y);

impl<A, X, Y> Automaton for IntersectionAutomaton<X, Y> where
    X: Automaton<Alphabet = A>,
    Y: Automaton<Alphabet = A>,
 {
    type Alphabet = A;

    type State = (X::State, Y::State);

    type Effect = (X::Effect, Y::Effect);

    open spec fn wf(&self) -> bool {
        self.0.wf() && self.1.wf()
    }

    open spec fn state_ok(&self, state: Self::State) -> bool {
        self.0.state_ok(state.0) && self.1.state_ok(state.1)
    }

    open spec fn spec_initial(&self) -> Self::State {
        (self.0.spec_initial(), self.1.spec_initial())
    }

    open spec fn spec_next(&self, state: Self::State, alph: A) -> Option<
        (Self::State, Self::Effect),
    > {
        match (self.0.spec_next(state.0, alph), self.1.spec_next(state.1, alph)) {
            (Some((s0, e0)), Some((s1, e1))) => Some((((s0, s1), (e0, e1)))),
            _ => None,
        }
    }

    open spec fn spec_accept(&self, state: Self::State) -> bool {
        self.0.spec_accept(state.0) && self.1.spec_accept(state.1)
    }

    fn initial(&self) -> (r: Self::State) {
        (self.0.initial(), self.1.initial())
    }

    fn next(&self, state: &Self::State, alph: &A) -> (r: Option<(Self::State, Self::Effect)>) {
        match (self.0.next(&state.0, alph), self.1.next(&state.1, alph)) {
            (Some((s0, e0)), Some((s1, e1))) => Some(((s0, s1), (e0, e1))),
            _ => None,
        }
    }

    fn accept(&self, state: &Self::State) -> (r: bool) {
        self.0.accept(&state.0) && self.1.accept(&state.1)
    }
}

/// Product over a shared alphabet, accepting when either part accepts.
pub struct UnionAutomaton<X: Automaton, Y: Automaton>(pub X, pub Y);

impl<A, X, Y> Automaton for UnionAutomaton<X, Y> where
    X: Automaton<Alphabet = A>,
    Y: Automaton<Alphabet = A>,
 {
    type Alphabet = A;

    type State = (X::State, Y::State);

    type Effect = (X::Effect, Y::Effect);

    open spec fn wf(&self) -> bool {
        self.0.wf() && self.1.wf()
    }

    open spec fn state_ok(&self, state: Self::State) -> bool {
        self.0.state_ok(state.0) && self.1.state_ok(state.1)
    }

    open spec fn spec_initial(&self) -> Self::State {
        (self.0.spec_initial(), self.1.spec_initial())
    }

    open spec fn spec_next(&self, state: Self::State, alph: A) -> Option<
        (Self::State, Self::Effect),
    > {
        match (self.0.spec_next(state.0, alph), self.1.spec_next(state.1, alph)) {
            (Some((s0, e0)), Some((s1, e1))) => Some((((s0, s1), (e0, e1)))),
            _ => None,
        }
    }

    open spec fn spec_accept(&self, state: Self::State) -> bool {
        self.0.spec_accept(state.0) || self.1.spec_accept(state.1)
    }

    fn initial(&self) -> (r: Self::State) {
        (self.0.initial(), self.1.initial())
    }

    fn next(&self, state: &Self::State, alph: &A) -> (r: Option<(Self::State, Self::Effect)>) {
        match (self.0.next(&state.0, alph), self.1.next(&state.1, alph)) {
            (Some((s0, e0)), Some((s1, e1))) => Some(((s0, s1), (e0, e1))),
            _ => None,
        }
    }

    fn accept(&self, state: &Self::State) -> (r: bool) {
        self.0.accept(&state.0) || self.1.accept(&state.1)
    }
}

/// Product over paired alphabets, accepting when both parts accept.
pub struct ProductAutomaton<X: Automaton, Y: Automaton>(pub X, pub Y);

impl<X: Automaton, Y: Automaton> Automaton for ProductAutomaton<X, Y> {
    type Alphabet = (X::Alphabet, Y::Alphabet);

    type State = (X::State, Y::State);

    type Effect = (X::Effect, Y::Effect);

    open spec fn wf(&self) -> bool {
        self.0.wf() && self.1.wf()
    }

    open spec fn state_ok(&self, state: Self::State) -> bool {
        self.0.state_ok(state.0) && self.1.state_ok(state.1)
    }

    open spec fn spec_initial(&self) -> Self::State {
        (self.0.spec_initial(), self.1.spec_initial())
    }

    open spec fn spec_next(&self, state: Self::State, alph: Self::Alphabet) -> Option<
        (Self::State, Self::Effect),
    > {
        match (self.0.spec_next(state.0, alph.0), self.1.spec_next(state.1, alph.1)) {
            (Some((s0, e0)), Some((s1, e1))) => Some((((s0, s1), (e0, e1)))),
            _ => None,
        }
    }

    open spec fn spec_accept(&self, state: Self::State) -> bool {
        self.0.spec_accept(state.0) && self.1.spec_accept(state.1)
    }

    fn initial(&self) -> (r: Self::State) {
        (self.0.initial(), self.1.initial())
    }

    fn next(&self, state: &Self::State, alph: &Self::Alphabet) -> (r: Option<
        (Self::State, Self::Effect),
    >) {
        match (self.0.next(&state.0, &alph.0), self.1.next(&state.1, &alph.1)) {
            (Some((s0, e0)), Some((s1, e1))) => Some(((s0, s1), (e0, e1))),
            _ => None,
        }
    }

    fn accept(&self, state: &Self::State) -> (r: bool) {
        self.0.accept(&state.0) && self.1.accept(&state.1)
    }
}

/// Accepts the words strictly below the fixed word `buf` (at or below it
/// when `eq` is set), comparing symbols position by position.
pub struct LessThanAutomaton<'a, T: Ord> {
    buf: &'a [T],
    eq: bool,
}

impl<'a, T: Ord> LessThanAutomaton<'a, T> {
    /// Builds the automaton for the bound `buf`; `eq` admits equality.
    pub fn new(buf: &'a [T], eq: bool) -> (r: Self)
        ensures
            r.bound() == buf@,
            r.eq_flag() == eq,
    {
        LessThanAutomaton { buf, eq }
    }

    /// Whether equality with the bound is accepted.
    pub closed spec fn eq_flag(&self) -> bool {
        self.eq
    }

    /// The bound word.
    pub closed spec fn bound(&self) -> Seq<T> {
        self.buf@
    }
}

impl<T: Ord> Automaton for LessThanAutomaton<'_, T> {
    type Alphabet = T;

    type State = (usize, bool);

    type Effect = ();

    open spec fn wf(&self) -> bool {
        T::obeys_cmp_spec()
    }

    open spec fn state_ok(&self, state: (usize, bool)) -> bool {
        state.0 <= self.bound().len()
    }

    open spec fn spec_initial(&self) -> (usize, bool) {
        (0usize, true)
    }

    open spec fn spec_next(&self, state: (usize, bool), alph: T) -> Option<((usize, bool), ())> {
        if state.0 < self.bound().len() {
            match (state.1, self.bound()[state.0 as int].cmp_spec(&alph)) {
                (true, Ordering::Equal) => Some((((state.0 + 1) as usize, true), ())),
                (true, Ordering::Less) => None,
                _ => Some((((state.0 + 1) as usize, false), ())),
            }
        } else {
            None
        }
    }

    open spec fn spec_accept(&self, state: (usize, bool)) -> bool {
        self.eq_flag() || !state.1
    }

    fn initial(&self) -> (r: (usize, bool)) {
        (0, true)
    }

    fn next(&self, state: &(usize, bool), alph: &T) -> (r: Option<((usize, bool), ())>) {
        if state.0 < self.buf.len() {
            let c = &self.buf[state.0];
            match (state.1, c.cmp(alph)) {
                (true, Ordering::Equal) => Some(((state.0 + 1, true), ())),
                (true, Ordering::Less) => None,
                _ => Some(((state.0 + 1, false), ())),
            }
        } else {
            None
        }
    }

    fn accept(&self, state: &(usize, bool)) -> (r: bool) {
        self.eq || !state.1
    }
}

/// Accepts the words strictly above the fixed word `buf` (at or above it
/// when `eq` is set), comparing symbols position by position.
pub struct GreaterThanAutomaton<'a, T: Ord> {
    buf: &'a [T],
    eq: bool,
}

impl<'a, T: Ord> GreaterThanAutomaton<'a, T> {
    /// Builds the automaton for the bound `buf`; `eq` admits equality.
    pub fn new(buf: &'a [T], eq: bool) -> (r: Self)
        ensures
            r.bound() == buf@,
            r.eq_flag() == eq,
    {
        GreaterThanAutomaton { buf, eq }
    }

    /// Whether equality with the bound is accepted.
    pub closed spec fn eq_flag(&self) -> bool {
        self.eq
    }

    /// The bound word.
    pub closed spec fn bound(&self) -> Seq<T> {
        self.buf@
    }
}

impl<T: Ord> Automaton for GreaterThanAutomaton<'_, T> {
    type Alphabet = T;

    type State = (usize, bool);

    type Effect = ();

    open spec fn wf(&self) -> bool {
        T::obeys_cmp_spec()
    }

    open spec fn state_ok(&self, state: (usize, bool)) -> bool {
        state.0 <= self.bound().len()
    }

    open spec fn spec_initial(&self) -> (usize, bool) {
        (0usize, true)
    }

    open spec fn spec_next(&self, state: (usize, bool), alph: T) -> Option<((usize, bool), ())> {
        if state.0 < self.bound().len() {
            match (state.1, self.bound()[state.0 as int].cmp_spec(&alph)) {
                (true, Ordering::Equal) => Some((((state.0 + 1) as usize, true), ())),
                (true, Ordering::Greater) => None,
                _ => Some((((state.0 + 1) as usize, false), ())),
            }
        } else {
            None
        }
    }

    open spec fn spec_accept(&self, state: (usize, bool)) -> bool {
        self.eq_flag() || !state.1
    }

    fn initial(&self) -> (r: (usize, bool)) {
        (0, true)
    }

    fn next(&self, state: &(usize, bool), alph: &T) -> (r: Option<((usize, bool), ())>) {
        if state.0 < self.buf.len() {
            let c = &self.buf[state.0];
            match (state.1, c.cmp(alph)) {
                (true, Ordering::Equal) => Some(((state.0 + 1, true), ())),
                (true, Ordering::Greater) => None,
                _ => Some(((state.0 + 1, false), ())),
            }
        } else {
            None
        }
    }

    fn accept(&self, state: &(usize, bool)) -> (r: bool) {
        self.eq || !state.1
    }
}

/// Tracks whether a fixed symbol has occurred; the effect flags the step on
/// which it first occurs.
pub struct ContainAutomaton<'a, T: Eq>(pub &'a T);

impl<T: Eq> Automaton for ContainAutomaton<'_, T> {
    type Alphabet = T;

    type State = bool;

    type Effect = bool;

    open spec fn wf(&self) -> bool {
        T::obeys_eq_spec()
    }

    open spec fn state_ok(&self, state: bool) -> bool {
        true
    }

    open spec fn spec_initial(&self) -> bool {
        false
    }

    open spec fn spec_next(&self, state: bool, alph: T) -> Option<(bool, bool)> {
        Some((state || (*self.0).eq_spec(&alph), state != (*self.0).eq_spec(&alph)))
    }

    open spec fn spec_accept(&self, state: bool) -> bool {
        state
    }

    fn initial(&self) -> (r: bool) {
        false
    }

    fn next(&self, state: &bool, alph: &T) -> (r: Option<(bool, bool)>) {
        let hit = *self.0 == *alph;
        Some((*state || hit, *state ^ hit))
    }

    fn accept(&self, state: &bool) -> (r: bool) {
        *state
    }
}

/// Counts occurrences of a fixed symbol; each effect is the count so far.
pub struct ContainCounterAutomaton<'a, T: Eq>(pub &'a T);

impl<T: Eq> Automaton for ContainCounterAutomaton<'_, T> {
    type Alphabet = T;

    type State = usize;

    type Effect = usize;

    open spec fn wf(&self) -> bool {
        T::obeys_eq_spec()
    }

    open spec fn state_ok(&self, state: usize) -> bool {
        state < usize::MAX
    }

    open spec fn spec_initial(&self) -> usize {
        0usize
    }

    open spec fn spec_next(&self, state: usize, alph: T) -> Option<(usize, usize)> {
        if (*self.0).eq_spec(&alph) {
            Some((((state + 1) as usize, (state + 1) as usize)))
        } else {
            Some((state, state))
        }
    }

    open spec fn spec_accept(&self, state: usize) -> bool {
        state > 0
    }

    fn initial(&self) -> (r: usize) {
        0
    }

    fn next(&self, state: &usize, alph: &T) -> (r: Option<(usize, usize)>) {
        let nstate = if *self.0 == *alph {
            *state + 1
        } else {
            *state
        };
        Some((nstate, nstate))
    }

    fn accept(&self, state: &usize) -> (r: bool) {
        *state > 0
    }
}

/// Accepts every word, with trivial states and effects.
#[derive(Debug)]
pub struct AlwaysAcceptingAutomaton<A> {
    _marker: PhantomData<A>,
}

impl<A> AlwaysAcceptingAutomaton<A> {
    /// Creates the automaton.
    pub fn new() -> (r: Self)
        ensures
            r.wf(),
    {
        AlwaysAcceptingAutomaton { _marker: PhantomData }
    }
}

impl<A> Default for AlwaysAcceptingAutomaton<A> {
    fn default() -> (r: Self)
        ensures
            r.wf(),
    {
        AlwaysAcceptingAutomaton { _marker: PhantomData }
    }
}

impl<A> Automaton for AlwaysAcceptingAutomaton<A> {
    type Alphabet = A;

    type State = ();

    type Effect = ();

    open spec fn wf(&self) -> bool {
        true
    }

    open spec fn state_ok(&self, state: ()) -> bool {
        true
    }

    open spec fn spec_initial(&self) -> () {
        ()
    }

    open spec fn spec_next(&self, state: (), alph: A) -> Option<((), ())> {
        Some(((), ()))
    }

    open spec fn spec_accept(&self, state: ()) -> bool {
        true
    }

    fn initial(&self) -> (r: ()) {
    }

    fn next(&self, state: &(), alph: &A) -> (r: Option<((), ())>) {
        Some(((), ()))
    }

    fn accept(&self, state: &()) -> (r: bool) {
        true
    }
}

} // verus!
