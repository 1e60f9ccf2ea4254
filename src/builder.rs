use vstd::laws_eq::obeys_concrete_eq;
use vstd::prelude::*;

use crate::dfa::{rows_view, DFA};
use crate::lookup::{lemma_index_of_unique, position};
use crate::model::{BuilderView, DFAError, DfaView, Graph};

verus! {

/// Assembles an automaton one declaration at a time.
///
/// Each operation takes the builder and hands it back, so calls chain. A
/// declaration that breaks a construction rule is recorded as the builder's
/// error; later declarations are then ignored and `build` reports it.
#[derive(Debug)]
pub struct DFABuilder<S, T> {
    states: Vec<S>,
    symbols: Vec<T>,
    table: Vec<Vec<Option<usize>>>,
    accept: Vec<bool>,
    dead: Vec<bool>,
    goal: Vec<bool>,
    start: Option<usize>,
    error: Option<DFAError>,
}

impl<S, T> View for DFABuilder<S, T> {
    type V = BuilderView<S, T>;

    closed spec fn view(&self) -> BuilderView<S, T> {
        BuilderView {
            graph: Graph {
                states: self.states@,
                symbols: self.symbols@,
                table: rows_view(self.table@),
                accept: self.accept@,
                dead: self.dead@,
                goal: self.goal@,
            },
            start: match self.start {
                Some(i) => Some(i as int),
                None => None,
            },
            error: self.error,
        }
    }
}

impl<S: Copy + Eq, T: Copy + Eq> DFABuilder<S, T> {
    /// A builder with nothing declared.
    pub fn new() -> (r: Self)
        ensures
            r@ == BuilderView::<S, T>::empty(),
            r@.wf(),
    {
        let r = DFABuilder {
            states: Vec::new(),
            symbols: Vec::new(),
            table: Vec::new(),
            accept: Vec::new(),
            dead: Vec::new(),
            goal: Vec::new(),
            start: None,
            error: None,
        };
        proof {
            assert(r@.graph.states =~= Seq::<S>::empty());
            assert(r@.graph.symbols =~= Seq::<T>::empty());
            assert(r@.graph.table =~= Seq::<Seq<Option<usize>>>::empty());
            assert(r@.graph.accept =~= Seq::<bool>::empty());
            assert(r@.graph.dead =~= Seq::<bool>::empty());
            assert(r@.graph.goal =~= Seq::<bool>::empty());
        }
        r
    }

    fn fail(self, e: DFAError) -> (r: Self)
        ensures
            r@ == self@.failed(e),
    {
        DFABuilder { error: Some(e), ..self }
    }

    /// Registers a state. Fails once a transition has been added.
    pub fn add_state(self, state: &S) -> (r: Self)
        requires
            self@.wf(),
            obeys_concrete_eq::<S>(),
        ensures
            r@ == self@.with_state(*state),
            r@.wf(),
    {
        if self.error.is_some() {
            return self;
        }
        if self.symbols.len() > 0 {
            return self.fail(DFAError::StateAfterTransition);
        }
        match position(&self.states, state) {
            Some(_) => self,
            None => {
                let mut b = self;
                b.states.push(*state);
                b.accept.push(false);
                b.dead.push(false);
                b.goal.push(false);
                proof {
                    let o = self@.graph;
                    let g = b@.graph;
                    assert(g.table =~= o.table);
                    assert(g.states =~= o.states.push(*state));
                    assert forall|i: int, j: int|
                        0 <= i < j < g.states.len() implies g.states[i] != g.states[j] by {
                        if j == g.states.len() - 1 {
                            assert(o.states.contains(g.states[i]));
                        }
                    }
                }
                b
            },
        }
    }

    /// Marks a registered state accepting. Fails on an unregistered or a
    /// dead state.
    pub fn mark_accept_state(self, state: &S) -> (r: Self)
        requires
            self@.wf(),
            obeys_concrete_eq::<S>(),
        ensures
            r@ == self@.with_accept(*state),
            r@.wf(),
    {
        if self.error.is_some() {
            return self;
        }
        match position(&self.states, state) {
            None => self.fail(DFAError::UnknownState),
            Some(i) => {
                proof {
                    lemma_index_of_unique(self@.graph.states, i as int, *state);
                }
                if self.dead[i] {
                    return self.fail(DFAError::RoleConflict);
                }
                let mut b = self;
                b.accept.set(i, true);
                b
            },
        }
    }

    /// Marks a registered state as a goal: accepting, and absorbing every
    /// later symbol. Fails on an unregistered or a dead state.
    pub fn mark_goal_state(self, state: &S) -> (r: Self)
        requires
            self@.wf(),
            obeys_concrete_eq::<S>(),
        ensures
            r@ == self@.with_goal(*state),
            r@.wf(),
    {
        if self.error.is_some() {
            return self;
        }
        match position(&self.states, state) {
            None => self.fail(DFAError::UnknownState),
            Some(i) => {
                proof {
                    lemma_index_of_unique(self@.graph.states, i as int, *state);
                }
                if self.dead[i] {
                    return self.fail(DFAError::RoleConflict);
                }
                let mut b = self;
                b.accept.set(i, true);
                b.goal.set(i, true);
                b
            },
        }
    }

    /// Marks a registered state dead: absorbing and rejecting. Fails on an
    /// unregistered or an accepting state.
    pub fn mark_dead_state(self, state: &S) -> (r: Self)
        requires
            self@.wf(),
            obeys_concrete_eq::<S>(),
        ensures
            r@ == self@.with_dead(*state),
            r@.wf(),
    {
        if self.error.is_some() {
            return self;
        }
        match position(&self.states, state) {
            None => self.fail(DFAError::UnknownState),
            Some(i) => {
                proof {
                    lemma_index_of_unique(self@.graph.states, i as int, *state);
                }
                if self.accept[i] {
                    return self.fail(DFAError::RoleConflict);
                }
                let mut b = self;
                b.dead.set(i, true);
                b
            },
        }
    }

    /// Designates the start state. Fails on an unregistered state, and when
    /// a start state was designated before.
    pub fn mark_start_state(self, state: &S) -> (r: Self)
        requires
            self@.wf(),
            obeys_concrete_eq::<S>(),
        ensures
            r@ == self@.with_start(*state),
            r@.wf(),
    {
        if self.error.is_some() {
            return self;
        }
        if self.start.is_some() {
            return self.fail(DFAError::StartRedefined);
        }
        match position(&self.states, state) {
            None => self.fail(DFAError::UnknownState),
            Some(i) => {
                proof {
                    lemma_index_of_unique(self@.graph.states, i as int, *state);
                }
                DFABuilder { start: Some(i), ..self }
            },
        }
    }

    /// Adds the edge from `from` on `transition` to `to`, replacing an
    /// earlier edge from `from` on the same symbol. Fails when `from` is a
    /// dead or goal state, and when either state is unregistered.
    pub fn add_transition(self, from: &S, transition: &T, to: &S) -> (r: Self)
        requires
            self@.wf(),
            obeys_concrete_eq::<S>(),
            obeys_concrete_eq::<T>(),
        ensures
            r@ == self@.with_transition(*from, *transition, *to),
            r@.wf(),
    {
        if self.error.is_some() {
            return self;
        }
        let from_index = position(&self.states, from);
        if let Some(i) = from_index {
            proof {
                lemma_index_of_unique(self@.graph.states, i as int, *from);
            }
            if self.dead[i] || self.goal[i] {
                return self.fail(DFAError::TransitionFromAbsorbing);
            }
        }
        let i = match from_index {
            Some(i) => i,
            None => {
                return self.fail(DFAError::UnknownState);
            },
        };
        let j = match position(&self.states, to) {
            Some(j) => j,
            None => {
                return self.fail(DFAError::UnknownState);
            },
        };
        proof {
            lemma_index_of_unique(self@.graph.states, j as int, *to);
        }
        let ghost o = self@.graph;
        match position(&self.symbols, transition) {
            Some(k) => {
                proof {
                    lemma_index_of_unique(o.symbols, k as int, *transition);
                }
                let mut b = self;
                b.table[k][i] = Some(j);
                proof {
                    let g = b@.graph;
                    assert(g.table =~= o.table.update(k as int, o.table[k as int].update(i as int, Some(j))));
                }
                b
            },
            None => {
                let n = self.states.len();
                let mut row: Vec<Option<usize>> = Vec::new();
                while row.len() < n
                    invariant
                        row@.len() <= n,
                        forall|x: int| 0 <= x < row@.len() ==> row@[x] is None,
                    decreases n - row@.len(),
                {
                    row.push(None);
                }
                row.set(i, Some(j));
                let ghost fresh = row@;
                let mut b = self;
                b.symbols.push(*transition);
                b.table.push(row);
                proof {
                    let g = b@.graph;
                    let expect = Seq::new(o.n() as nat, |x: int| None::<usize>).update(
                        i as int,
                        Some(j),
                    );
                    assert(fresh =~= expect);
                    assert(g.table =~= o.table.push(expect));
                    assert(g.symbols =~= o.symbols.push(*transition));
                    assert forall|a: int, c: int|
                        0 <= a < c < g.symbols.len() implies g.symbols[a] != g.symbols[c] by {
                        if c == g.symbols.len() - 1 {
                            assert(o.symbols.contains(g.symbols[a]));
                        }
                    }
                }
                b
            },
        }
    }

    fn has_accept(&self) -> (r: bool)
        requires
            self@.wf(),
        ensures
            r == self@.graph.has_accept(),
    {
        let mut i: usize = 0;
        while i < self.accept.len()
            invariant
                self@.wf(),
                i <= self.accept@.len(),
                forall|x: int| 0 <= x < i ==> !self.accept@[x],
            decreases self.accept@.len() - i,
        {
            if self.accept[i] {
                return true;
            }
            i = i + 1;
        }
        false
    }

    /// Whether some edge leaves a dead or goal state.
    fn edge_from_absorbing(&self) -> (r: bool)
        requires
            self@.wf(),
        ensures
            r == self@.graph.edge_from_absorbing(),
    {
        let ghost g = self@.graph;
        let n = self.states.len();
        let mut k: usize = 0;
        while k < self.table.len()
            invariant
                self@.wf(),
                g == self@.graph,
                n == g.n(),
                k <= g.symbols.len(),
                forall|a: int, x: int|
                    0 <= a < k && 0 <= x < n && g.is_absorbing(x) ==> #[trigger] g.table[a][x] is None,
            decreases g.symbols.len() - k,
        {
            let mut i: usize = 0;
            while i < n
                invariant
                    self@.wf(),
                    g == self@.graph,
                    n == g.n(),
                    k < g.symbols.len(),
                    i <= n,
                    forall|a: int, x: int|
                        0 <= a < k && 0 <= x < n && g.is_absorbing(x) ==> #[trigger] g.table[a][x] is None,
                    forall|x: int| 0 <= x < i && g.is_absorbing(x) ==> #[trigger] g.table[k as int][x] is None,
                decreases n - i,
            {
                if (self.dead[i] || self.goal[i]) && self.table[k][i].is_some() {
                    return true;
                }
                i = i + 1;
            }
            k = k + 1;
        }
        false
    }

    /// Whether some live state lacks an edge for a symbol of the table.
    fn missing_edge(&self) -> (r: bool)
        requires
            self@.wf(),
        ensures
            r == self@.graph.missing_edge(),
    {
        let ghost g = self@.graph;
        let n = self.states.len();
        let mut k: usize = 0;
        while k < self.table.len()
            invariant
                self@.wf(),
                g == self@.graph,
                n == g.n(),
                k <= g.symbols.len(),
                forall|a: int, x: int|
                    0 <= a < k && 0 <= x < n && !g.is_absorbing(x) ==> #[trigger] g.table[a][x] is Some,
            decreases g.symbols.len() - k,
        {
            let mut i: usize = 0;
            while i < n
                invariant
                    self@.wf(),
                    g == self@.graph,
                    n == g.n(),
                    k < g.symbols.len(),
                    i <= n,
                    forall|a: int, x: int|
                        0 <= a < k && 0 <= x < n && !g.is_absorbing(x) ==> #[trigger] g.table[a][x] is Some,
                    forall|x: int| 0 <= x < i && !g.is_absorbing(x) ==> #[trigger] g.table[k as int][x] is Some,
                decreases n - i,
            {
                if !(self.dead[i] || self.goal[i]) && self.table[k][i].is_none() {
                    return true;
                }
                i = i + 1;
            }
            k = k + 1;
        }
        false
    }

    /// Checks the whole structure and hands over the automaton, its cursor
    /// on the start state. The error is the one recorded by an earlier
    /// declaration if any; otherwise, in this order: no state, no start
    /// state, no accepting state, an edge out of a dead or goal state, a
    /// live state without an edge for a symbol of the table.
    pub fn build(self) -> (r: Result<DFA<S, T>, DFAError>)
        requires
            self@.wf(),
        ensures
            r is Ok <==> self@.outcome() is Ok,
            r is Ok ==> self@.outcome() == Ok::<DfaView<S, T>, DFAError>(r->Ok_0@),
            r is Ok ==> r->Ok_0@.wf(),
            r is Err ==> self@.outcome() == Err::<DfaView<S, T>, DFAError>(r->Err_0),
            self@.graph.missing_edge() ==> r is Err,
    {
        if let Some(e) = self.error {
            return Err(e);
        }
        if self.states.len() == 0 {
            return Err(DFAError::NoStates);
        }
        let start = match self.start {
            Some(s) => s,
            None => {
                return Err(DFAError::MissingStart);
            },
        };
        if !self.has_accept() {
            return Err(DFAError::MissingAccept);
        }
        if self.edge_from_absorbing() {
            return Err(DFAError::TransitionFromAbsorbing);
        }
        if self.missing_edge() {
            return Err(DFAError::IncompleteTransitionTable);
        }
        let DFABuilder { states, symbols, table, accept, dead, goal, .. } = self;
        Ok(DFA::from_parts(states, symbols, table, accept, dead, goal, start))
    }
}

impl<S: Copy + Eq, T: Copy + Eq> Default for DFABuilder<S, T> {
    fn default() -> (r: Self)
        ensures
            r@ == BuilderView::<S, T>::empty(),
            r@.wf(),
    {
        Self::new()
    }
}

} // verus!
