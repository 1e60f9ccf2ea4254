use vstd::laws_eq::obeys_concrete_eq;
use vstd::prelude::*;

use crate::lookup::{lemma_index_of_unique, position};
use crate::model::{DFAError, DfaView, Evaluation, Graph};

verus! {

/// A validated automaton and its cursor. Only `DFABuilder::build` makes one.
///
/// States and symbols are interned: `states` and `symbols` hold each value
/// once, and every other field refers to them by index.
#[derive(Debug)]
pub struct DFA<S, T> {
    pub(crate) states: Vec<S>,
    pub(crate) symbols: Vec<T>,
    pub(crate) table: Vec<Vec<Option<usize>>>,
    pub(crate) accept: Vec<bool>,
    pub(crate) dead: Vec<bool>,
    pub(crate) goal: Vec<bool>,
    pub(crate) start: usize,
    pub(crate) current: usize,
}

/// The rows of a transition table as sequences.
pub(crate) open spec fn rows_view(table: Seq<Vec<Option<usize>>>) -> Seq<Seq<Option<usize>>> {
    table.map_values(|row: Vec<Option<usize>>| row@)
}

impl<S, T> View for DFA<S, T> {
    type V = DfaView<S, T>;

    closed spec fn view(&self) -> DfaView<S, T> {
        DfaView {
            graph: Graph {
                states: self.states@,
                symbols: self.symbols@,
                table: rows_view(self.table@),
                accept: self.accept@,
                dead: self.dead@,
                goal: self.goal@,
            },
            start: self.start as int,
            current: self.current as int,
        }
    }
}

impl<S: Copy + Eq, T: Copy + Eq> DFA<S, T> {
    /// Assembles an automaton from checked parts, its cursor on `start`.
    pub(crate) fn from_parts(
        states: Vec<S>,
        symbols: Vec<T>,
        table: Vec<Vec<Option<usize>>>,
        accept: Vec<bool>,
        dead: Vec<bool>,
        goal: Vec<bool>,
        start: usize,
    ) -> (r: Self)
        ensures
            r@ == (DfaView {
                graph: Graph {
                    states: states@,
                    symbols: symbols@,
                    table: rows_view(table@),
                    accept: accept@,
                    dead: dead@,
                    goal: goal@,
                },
                start: start as int,
                current: start as int,
            }),
    {
        DFA { states, symbols, table, accept, dead, goal, start, current: start }
    }

    /// Advances the cursor by one symbol. A dead or goal state absorbs it.
    ///
    /// From a live state the symbol must belong to the alphabet; use
    /// `try_next` where that is not known.
    pub fn next(&mut self, transition: &T)
        requires
            old(self)@.wf(),
            obeys_concrete_eq::<T>(),
            old(self)@.can_advance(*transition),
        ensures
            final(self)@ == old(self)@.advanced(*transition),
    {
        let c = self.current;
        if self.dead[c] || self.goal[c] {
            return ;
        }
        match position(&self.symbols, transition) {
            Some(k) => {
                proof {
                    let g = self@.graph;
                    lemma_index_of_unique(g.symbols, k as int, *transition);
                    assert(g.table[k as int][c as int] is Some);
                }
                match self.table[k][c] {
                    Some(d) => {
                        self.current = d;
                    },
                    None => {},
                }
            },
            None => {},
        }
    }

    /// Like `next`, but reports a symbol outside the alphabet, met in a live
    /// state, as `UnknownSymbol` and leaves the cursor where it is.
    pub fn try_next(&mut self, transition: &T) -> (r: Result<(), DFAError>)
        requires
            old(self)@.wf(),
            obeys_concrete_eq::<T>(),
        ensures
            r is Ok <==> old(self)@.can_advance(*transition),
            r is Ok ==> final(self)@ == old(self)@.advanced(*transition),
            r is Err ==> r == Err::<(), DFAError>(DFAError::UnknownSymbol),
            r is Err ==> final(self)@ == old(self)@,
    {
        let c = self.current;
        if self.dead[c] || self.goal[c] {
            return Ok(());
        }
        match position(&self.symbols, transition) {
            Some(_) => {
                self.next(transition);
                Ok(())
            },
            None => Err(DFAError::UnknownSymbol),
        }
    }

    /// The value of the state the cursor rests on.
    pub fn state(&self) -> (r: S)
        requires
            self@.wf(),
        ensures
            r == self@.graph.states[self@.current],
    {
        self.states[self.current]
    }

    /// Puts the cursor back on the start state.
    pub fn restart(&mut self)
        ensures
            final(self)@ == old(self)@.restarted(),
    {
        self.current = self.start;
    }

    /// Accept if the cursor rests on an accepting state, else Reject.
    pub fn eval(&self) -> (r: Evaluation)
        requires
            self@.wf(),
        ensures
            r == self@.eval(),
    {
        if self.accept[self.current] {
            Evaluation::Accept
        } else {
            Evaluation::Reject
        }
    }

    /// Restarts, steps once for each symbol of `inputs` in order, and
    /// classifies the state reached. Every symbol is consumed, also after a
    /// dead or goal state absorbed the rest.
    pub fn recognize(&mut self, inputs: &[T]) -> (r: Evaluation)
        requires
            old(self)@.wf(),
            obeys_concrete_eq::<T>(),
            old(self)@.runs(inputs@),
        ensures
            final(self)@ == old(self)@.after_run(inputs@),
            r == final(self)@.eval(),
    {
        self.restart();
        let ghost d0 = self@;
        let mut i: usize = 0;
        while i < inputs.len()
            invariant
                d0.wf(),
                obeys_concrete_eq::<T>(),
                d0.runs(inputs@),
                i <= inputs@.len(),
                d0.graph.walk(d0.start, inputs@.take(i as int)) == Some(self@.current),
                self@ == d0.at(self@.current),
            decreases inputs@.len() - i,
        {
            proof {
                let g = d0.graph;
                let pre = inputs@.take(i as int);
                let rest = inputs@.skip(i as int);
                assert(inputs@ =~= pre + rest);
                g.lemma_walk_append(d0.start, pre, rest);
                g.lemma_walk_valid(d0.start, pre);
                assert(rest[0] == inputs@[i as int]);
                let one = seq![inputs@[i as int]];
                assert(inputs@.take(i + 1) =~= pre + one);
                g.lemma_walk_append(d0.start, pre, one);
                assert(one.drop_first() =~= Seq::<T>::empty());
                let j = self@.current;
                assert(g.can_step(j, inputs@[i as int]));
                assert(g.walk(g.step(j, inputs@[i as int]), one.drop_first()) == Some(
                    g.step(j, inputs@[i as int]),
                ));
                assert(g.walk(j, one) == Some(g.step(j, inputs@[i as int])));
            }
            self.next(&inputs[i]);
            i = i + 1;
        }
        proof {
            assert(inputs@.take(inputs@.len() as int) =~= inputs@);
            let g = d0.graph;
            g.lemma_walk_valid(d0.start, inputs@);
        }
        self.eval()
    }
}

} // verus!
