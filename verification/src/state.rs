//! Inherited drawing state, and the bounded stack that gives every element a
//! copy of its parent's state.
use vstd::prelude::*;
use crate::color::OPAQUE_BLACK;
use crate::scalar::Scalar;
use crate::transform::{identity_transform, lemma_matrix_of, matrix_of, spec_identity};

verus! {

/// Which points a shape's outline encloses.
#[derive(Clone, Copy, PartialEq, Eq, Structural, Debug)]
pub enum FillRule {
    NonZero,
    EvenOdd,
}

/// The number of states the stack holds at most.
pub const MAX_DEPTH: usize = 64;

/// The stack after entering an element: the current state is copied on top,
/// unless the stack is full, in which case it stays as it is.
pub open spec fn spec_push<T>(s: Seq<T>) -> Seq<T> {
    if s.len() < MAX_DEPTH {
        s.push(s.last())
    } else {
        s
    }
}

/// The stack after leaving an element: the top state is dropped, unless it is
/// the only one.
pub open spec fn spec_pop<T>(s: Seq<T>) -> Seq<T> {
    if s.len() > 1 {
        s.drop_last()
    } else {
        s
    }
}

/// What an element is drawn with.
#[derive(Clone, Copy, Debug)]
pub struct State<S> {
    /// From user space to pixels.
    pub transform: [S; 6],
    /// Colours are `0xRRGGBBAA`; `None` means the shape is not filled.
    pub fill: Option<u32>,
    pub fill_rule: FillRule,
    /// `None` means the outline is not stroked.
    pub stroke: Option<u32>,
    pub stroke_width: S,
    pub opacity: S,
}

/// The initial state: identity transform, filled in opaque black with the
/// non-zero rule, not stroked, stroke width 1, fully opaque.
pub open spec fn spec_initial_state<S: Scalar>() -> State<S> {
    State {
        transform: matrix_of(spec_identity::<S>()),
        fill: Some(OPAQUE_BLACK),
        fill_rule: FillRule::NonZero,
        stroke: None,
        stroke_width: S::spec_one(),
        opacity: S::spec_one(),
    }
}

impl<S: Scalar> Default for State<S> {
    /// The initial state: identity transform, filled in opaque black with the
    /// non-zero rule, not stroked, stroke width 1, fully opaque.
    fn default() -> (s: Self)
        ensures
            s.transform@ == spec_identity::<S>(),
            s.fill == Some(OPAQUE_BLACK),
            s.fill_rule == FillRule::NonZero,
            s.stroke is None,
            s.stroke_width == S::spec_one(),
            s.opacity == S::spec_one(),
            s == spec_initial_state::<S>(),
    {
        let transform = identity_transform();
        proof {
            lemma_matrix_of(transform);
        }
        State {
            transform,
            fill: Some(OPAQUE_BLACK),
            fill_rule: FillRule::NonZero,
            stroke: None,
            stroke_width: S::one(),
            opacity: S::one(),
        }
    }
}

/// The colours a state paints with have a full alpha channel.
pub open spec fn paints_opaque<S>(st: State<S>) -> bool {
    &&& (st.fill matches Some(c) ==> c % 256 == 255)
    &&& (st.stroke matches Some(c) ==> c % 256 == 255)
}

/// A stack of drawing states, from the root state up to the current one.
pub struct StateStack<T> {
    states: Vec<T>,
    top: usize,
}

impl<T> StateStack<T> {
    /// The backing store is full-sized and the top is inside it.
    pub closed spec fn wf(&self) -> bool {
        &&& self.states@.len() == MAX_DEPTH
        &&& self.top < MAX_DEPTH
    }
}

impl<T> StateStack<T> {
    /// A well-formed stack holds between 1 and `MAX_DEPTH` states.
    pub proof fn lemma_depth(&self)
        requires
            self.wf(),
        ensures
            1 <= self@.len() <= MAX_DEPTH,
    {
    }
}

impl<T> View for StateStack<T> {
    type V = Seq<T>;

    /// The states from the root up to the current one.
    closed spec fn view(&self) -> Seq<T> {
        self.states@.subrange(0, self.top + 1)
    }
}

impl<S: Scalar> StateStack<State<S>> {
    /// A stack that holds only the initial state.
    pub fn new() -> (s: Self)
        ensures
            s.wf(),
            s@ == seq![spec_initial_state::<S>()],
    {
        Self::with_root(State::default())
    }
}

impl<T: Copy> StateStack<T> {
    /// A stack that holds only `root`.
    pub fn with_root(root: T) -> (s: Self)
        ensures
            s.wf(),
            s@ == seq![root],
    {
        let mut states: Vec<T> = Vec::new();
        let mut i: usize = 0;
        while i < MAX_DEPTH
            invariant
                i <= MAX_DEPTH,
                states@.len() == i,
                forall|j: int| 0 <= j < i ==> states@[j] == root,
            decreases MAX_DEPTH - i,
        {
            states.push(root);
            i = i + 1;
        }
        let s = StateStack { states, top: 0 };
        assert(s@ =~= seq![root]);
        s
    }

    /// How many states the stack holds.
    pub fn depth(&self) -> (n: usize)
        requires
            self.wf(),
        ensures
            n == self@.len(),
            1 <= n <= MAX_DEPTH,
    {
        self.top + 1
    }

    /// The current state.
    pub fn current(&self) -> (r: &T)
        requires
            self.wf(),
        ensures
            *r == self@.last(),
            1 <= self@.len() <= MAX_DEPTH,
    {
        &self.states[self.top]
    }

    /// The current state, to change it; the states below it stay as they are.
    pub fn current_mut(&mut self) -> (r: &mut T)
        requires
            old(self).wf(),
        ensures
            final(self).wf(),
            *r == old(self)@.last(),
            final(self)@ == old(self)@.update(old(self)@.len() - 1, *final(r)),
            1 <= old(self)@.len() <= MAX_DEPTH,
    {
        let top = self.top;
        &mut self.states[top]
    }

    /// Enters an element: see `spec_push`.
    pub fn push(&mut self)
        requires
            old(self).wf(),
        ensures
            final(self).wf(),
            final(self)@ == spec_push(old(self)@),
            1 <= final(self)@.len() <= MAX_DEPTH,
    {
        if self.top + 1 >= MAX_DEPTH {
            return;
        }
        let s = self.states[self.top];
        let top = self.top;
        self.states.set(top + 1, s);
        self.top = top + 1;
        assert(self@ =~= old(self)@.push(old(self)@.last()));
    }

    /// Leaves an element: see `spec_pop`.
    pub fn pop(&mut self)
        requires
            old(self).wf(),
        ensures
            final(self).wf(),
            final(self)@ == spec_pop(old(self)@),
            1 <= final(self)@.len() <= MAX_DEPTH,
    {
        if self.top > 0 {
            self.top = self.top - 1;
            assert(self@ =~= old(self)@.drop_last());
        }
    }
}

/// Leaving an element gives back the stack as it was before entering it,
/// as long as the stack was not full.
pub proof fn lemma_pop_undoes_push<T>(s: Seq<T>)
    requires
        1 <= s.len() < MAX_DEPTH,
    ensures
        spec_pop(spec_push(s)) == s,
{
    assert(s.push(s.last()).drop_last() =~= s);
}

/// An element sees its parent's state: after entering it, the current state
/// is the one that was current before, and the states below are kept.
pub proof fn lemma_push_inherits<T>(s: Seq<T>)
    requires
        1 <= s.len(),
    ensures
        spec_push(s).last() == s.last(),
        s.len() < MAX_DEPTH ==> spec_push(s).subrange(0, s.len() as int) == s,
{
    assert(s.push(s.last()).subrange(0, s.len() as int) =~= s);
}

} // verus!
