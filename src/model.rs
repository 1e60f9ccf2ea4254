use vstd::prelude::*;

verus! {

/// The classification of the state the cursor rests on.
#[derive(Debug, Clone, Copy, PartialEq, Eq, Structural)]
pub enum Evaluation {
    Accept,
    Reject,
}

/// Why building an automaton, or stepping it, did not succeed.
#[derive(Debug, Clone, Copy, PartialEq, Eq, Structural)]
pub enum DFAError {
    /// `build` on a builder that holds no state.
    NoStates,
    /// A state was added after a transition.
    StateAfterTransition,
    /// A role or an edge named a state that was never added.
    UnknownState,
    /// A state would be both dead and accepting.
    RoleConflict,
    /// A second start state was designated.
    StartRedefined,
    /// An edge leaves a dead or a goal state.
    TransitionFromAbsorbing,
    /// `build` without a start state.
    MissingStart,
    /// `build` without an accepting state.
    MissingAccept,
    /// A live state has no edge for a symbol that the table knows.
    IncompleteTransitionTable,
    /// A live state was stepped with a symbol outside the alphabet.
    UnknownSymbol,
}

/// The structure shared by a builder and an automaton: interned state and
/// symbol values, the transition table and the role markings.
///
/// `table[k][i]` is the index of the state reached from state `i` on
/// symbol `symbols[k]`, if that edge exists.
pub struct Graph<S, T> {
    pub states: Seq<S>,
    pub symbols: Seq<T>,
    pub table: Seq<Seq<Option<usize>>>,
    pub accept: Seq<bool>,
    pub dead: Seq<bool>,
    pub goal: Seq<bool>,
}

impl<S, T> Graph<S, T> {
    pub open spec fn n(self) -> int {
        self.states.len() as int
    }

    pub open spec fn valid_state(self, i: int) -> bool {
        0 <= i < self.n()
    }

    /// Dead and goal states absorb every symbol.
    pub open spec fn is_absorbing(self, i: int) -> bool {
        self.dead[i] || self.goal[i]
    }

    pub open spec fn has_accept(self) -> bool {
        exists|i: int| 0 <= i < self.n() && #[trigger] self.accept[i]
    }

    /// Some edge leaves an absorbing state.
    pub open spec fn edge_from_absorbing(self) -> bool {
        exists|k: int, i: int|
            0 <= k < self.symbols.len() && 0 <= i < self.n() && self.is_absorbing(i)
                && #[trigger] self.table[k][i] is Some
    }

    /// Some live state lacks an edge for a symbol of the table.
    pub open spec fn missing_edge(self) -> bool {
        exists|k: int, i: int|
            0 <= k < self.symbols.len() && 0 <= i < self.n() && !self.is_absorbing(i)
                && #[trigger] self.table[k][i] is None
    }

    /// Shapes agree, values are interned once, edges point at states, and
    /// the roles are consistent: no state is both dead and accepting, and
    /// every goal state accepts.
    pub open spec fn structural(self) -> bool {
        &&& self.accept.len() == self.n()
        &&& self.dead.len() == self.n()
        &&& self.goal.len() == self.n()
        &&& self.table.len() == self.symbols.len()
        &&& self.states.no_duplicates()
        &&& self.symbols.no_duplicates()
        &&& forall|k: int| 0 <= k < self.symbols.len() ==> #[trigger] self.table[k].len() == self.n()
        &&& forall|k: int, i: int|
            0 <= k < self.symbols.len() && 0 <= i < self.n() && #[trigger] self.table[k][i] is Some
                ==> (self.table[k][i]->Some_0 as int) < self.n()
        &&& forall|i: int| 0 <= i < self.n() ==> !(#[trigger] self.dead[i] && self.accept[i])
        &&& forall|i: int| 0 <= i < self.n() && #[trigger] self.goal[i] ==> self.accept[i]
    }

    /// What a finished automaton holds of its structure: at least one state
    /// and one accepting state, no edge out of an absorbing state, and an
    /// edge out of every live state for every symbol of the table.
    pub open spec fn sealed(self) -> bool {
        &&& self.structural()
        &&& self.n() > 0
        &&& self.has_accept()
        &&& !self.edge_from_absorbing()
        &&& !self.missing_edge()
    }

    /// State `i` can consume `t`: it absorbs it, or `t` is in the alphabet.
    pub open spec fn can_step(self, i: int, t: T) -> bool {
        self.is_absorbing(i) || self.symbols.contains(t)
    }

    /// The state reached from `i` on `t`.
    pub open spec fn step(self, i: int, t: T) -> int {
        if self.is_absorbing(i) {
            i
        } else {
            self.table[self.symbols.index_of(t)][i]->Some_0 as int
        }
    }

    /// The state reached from `i` after consuming `ts` from the front, or
    /// `None` if some step along the way cannot be taken.
    pub open spec fn walk(self, i: int, ts: Seq<T>) -> Option<int>
        decreases ts.len(),
    {
        if ts.len() == 0 {
            Some(i)
        } else if !self.can_step(i, ts[0]) {
            None
        } else {
            self.walk(self.step(i, ts[0]), ts.drop_first())
        }
    }

    pub open spec fn classify(self, i: int) -> Evaluation {
        if self.accept[i] {
            Evaluation::Accept
        } else {
            Evaluation::Reject
        }
    }
}

/// The abstract state of an automaton: its structure, its start state and
/// its cursor.
pub struct DfaView<S, T> {
    pub graph: Graph<S, T>,
    pub start: int,
    pub current: int,
}

impl<S, T> DfaView<S, T> {
    pub open spec fn wf(self) -> bool {
        &&& self.graph.sealed()
        &&& self.graph.valid_state(self.start)
        &&& self.graph.valid_state(self.current)
    }

    /// The same automaton with its cursor on state `i`.
    pub open spec fn at(self, i: int) -> Self {
        DfaView { current: i, ..self }
    }

    pub open spec fn restarted(self) -> Self {
        self.at(self.start)
    }

    pub open spec fn can_advance(self, t: T) -> bool {
        self.graph.can_step(self.current, t)
    }

    /// The automaton after one step on `t`.
    pub open spec fn advanced(self, t: T) -> Self {
        self.at(self.graph.step(self.current, t))
    }

    pub open spec fn eval(self) -> Evaluation {
        self.graph.classify(self.current)
    }

    /// One step on `t` from an automaton that exists, or `None` where the
    /// step cannot be taken.
    pub open spec fn advanced_opt(v: Option<Self>, t: T) -> Option<Self> {
        match v {
            Some(d) => if d.can_advance(t) {
                Some(d.advanced(t))
            } else {
                None
            },
            None => None,
        }
    }

    /// `advanced` folded over `ts`, left to right.
    pub open spec fn fold_advanced(self, ts: Seq<T>) -> Option<Self> {
        ts.fold_left(Some(self), |v: Option<Self>, t: T| Self::advanced_opt(v, t))
    }

    /// Whether the whole of `ts` can be consumed from the start state.
    pub open spec fn runs(self, ts: Seq<T>) -> bool {
        self.graph.walk(self.start, ts) is Some
    }

    /// The automaton after a restart and a step on each symbol of `ts`.
    pub open spec fn after_run(self, ts: Seq<T>) -> Self {
        self.at(self.graph.walk(self.start, ts)->Some_0)
    }
}

/// The abstract state of a builder: the structure declared so far, the
/// start state if one was designated, and the first construction error met.
///
/// Once an error is recorded every later operation leaves the builder as it
/// is, and `build` reports that error.
pub struct BuilderView<S, T> {
    pub graph: Graph<S, T>,
    pub start: Option<int>,
    pub error: Option<DFAError>,
}

impl<S, T> BuilderView<S, T> {
    pub open spec fn wf(self) -> bool {
        &&& self.graph.structural()
        &&& self.start is Some ==> self.graph.valid_state(self.start->Some_0)
    }

    /// A builder with nothing declared.
    pub open spec fn empty() -> Self {
        BuilderView {
            graph: Graph {
                states: Seq::empty(),
                symbols: Seq::empty(),
                table: Seq::empty(),
                accept: Seq::empty(),
                dead: Seq::empty(),
                goal: Seq::empty(),
            },
            start: None,
            error: None,
        }
    }

    pub open spec fn failed(self, e: DFAError) -> Self {
        BuilderView { error: Some(e), ..self }
    }

    pub open spec fn index(self, s: S) -> int {
        self.graph.states.index_of(s)
    }

    pub open spec fn knows(self, s: S) -> bool {
        self.graph.states.contains(s)
    }

    /// Registers `s`; a value already registered is left as it is.
    pub open spec fn with_state(self, s: S) -> Self {
        if self.error is Some {
            self
        } else if self.graph.symbols.len() > 0 {
            self.failed(DFAError::StateAfterTransition)
        } else if self.knows(s) {
            self
        } else {
            BuilderView {
                graph: Graph {
                    states: self.graph.states.push(s),
                    accept: self.graph.accept.push(false),
                    dead: self.graph.dead.push(false),
                    goal: self.graph.goal.push(false),
                    ..self.graph
                },
                ..self
            }
        }
    }

    /// Marks `s` accepting.
    pub open spec fn with_accept(self, s: S) -> Self {
        if self.error is Some {
            self
        } else if !self.knows(s) {
            self.failed(DFAError::UnknownState)
        } else if self.graph.dead[self.index(s)] {
            self.failed(DFAError::RoleConflict)
        } else {
            BuilderView {
                graph: Graph { accept: self.graph.accept.update(self.index(s), true), ..self.graph },
                ..self
            }
        }
    }

    /// Marks `s` accepting and absorbing.
    pub open spec fn with_goal(self, s: S) -> Self {
        if self.error is Some {
            self
        } else if !self.knows(s) {
            self.failed(DFAError::UnknownState)
        } else if self.graph.dead[self.index(s)] {
            self.failed(DFAError::RoleConflict)
        } else {
            BuilderView {
                graph: Graph {
                    accept: self.graph.accept.update(self.index(s), true),
                    goal: self.graph.goal.update(self.index(s), true),
                    ..self.graph
                },
                ..self
            }
        }
    }

    /// Marks `s` dead: absorbing and not accepting.
    pub open spec fn with_dead(self, s: S) -> Self {
        if self.error is Some {
            self
        } else if !self.knows(s) {
            self.failed(DFAError::UnknownState)
        } else if self.graph.accept[self.index(s)] {
            self.failed(DFAError::RoleConflict)
        } else {
            BuilderView {
                graph: Graph { dead: self.graph.dead.update(self.index(s), true), ..self.graph },
                ..self
            }
        }
    }

    /// Designates `s` as the start state; a second designation is an error.
    pub open spec fn with_start(self, s: S) -> Self {
        if self.error is Some {
            self
        } else if self.start is Some {
            self.failed(DFAError::StartRedefined)
        } else if !self.knows(s) {
            self.failed(DFAError::UnknownState)
        } else {
            BuilderView { start: Some(self.index(s)), ..self }
        }
    }

    /// Sets the edge from `from` on `t` to `to`, replacing an earlier one.
    pub open spec fn with_transition(self, from: S, t: T, to: S) -> Self {
        if self.error is Some {
            self
        } else if self.knows(from) && self.graph.is_absorbing(self.index(from)) {
            self.failed(DFAError::TransitionFromAbsorbing)
        } else if !self.knows(from) || !self.knows(to) {
            self.failed(DFAError::UnknownState)
        } else {
            let i = self.index(from);
            let edge = Some(self.index(to) as usize);
            if self.graph.symbols.contains(t) {
                let k = self.graph.symbols.index_of(t);
                BuilderView {
                    graph: Graph {
                        table: self.graph.table.update(k, self.graph.table[k].update(i, edge)),
                        ..self.graph
                    },
                    ..self
                }
            } else {
                let row = Seq::new(self.graph.n() as nat, |x: int| None::<usize>).update(i, edge);
                BuilderView {
                    graph: Graph {
                        symbols: self.graph.symbols.push(t),
                        table: self.graph.table.push(row),
                        ..self.graph
                    },
                    ..self
                }
            }
        }
    }

    /// What `build` yields: the first recorded error, else the first
    /// whole-structure check that fails, else the automaton with its cursor
    /// on the start state.
    pub open spec fn outcome(self) -> Result<DfaView<S, T>, DFAError> {
        if self.error is Some {
            Err(self.error->Some_0)
        } else if self.graph.n() == 0 {
            Err(DFAError::NoStates)
        } else if self.start is None {
            Err(DFAError::MissingStart)
        } else if !self.graph.has_accept() {
            Err(DFAError::MissingAccept)
        } else if self.graph.edge_from_absorbing() {
            Err(DFAError::TransitionFromAbsorbing)
        } else if self.graph.missing_edge() {
            Err(DFAError::IncompleteTransitionTable)
        } else {
            Ok(DfaView { graph: self.graph, start: self.start->Some_0, current: self.start->Some_0 })
        }
    }
}

impl<S, T> Graph<S, T> {
    /// A step from a state of a well-formed automaton lands on a state.
    pub proof fn lemma_step_valid(self, i: int, t: T)
        requires
            self.structural(),
            !self.missing_edge(),
            self.valid_state(i),
            self.can_step(i, t),
        ensures
            self.valid_state(self.step(i, t)),
    {
        if !self.is_absorbing(i) {
            let k = self.symbols.index_of(t);
            assert(0 <= k < self.symbols.len() && self.symbols[k] == t);
            assert(self.table[k][i] is Some);
        }
    }

    /// Consuming `s + u` is consuming `s`, then `u` from where `s` ended.
    pub proof fn lemma_walk_append(self, i: int, s: Seq<T>, u: Seq<T>)
        ensures
            self.walk(i, s + u) == match self.walk(i, s) {
                Some(j) => self.walk(j, u),
                None => None,
            },
        decreases s.len(),
    {
        if s.len() == 0 {
            assert(s + u =~= u);
        } else {
            assert((s + u)[0] == s[0]);
            assert((s + u).drop_first() =~= s.drop_first() + u);
            if self.can_step(i, s[0]) {
                self.lemma_walk_append(self.step(i, s[0]), s.drop_first(), u);
            }
        }
    }

    /// Every state that a walk from a state reaches is a state.
    pub proof fn lemma_walk_valid(self, i: int, s: Seq<T>)
        requires
            self.structural(),
            !self.missing_edge(),
            self.valid_state(i),
            self.walk(i, s) is Some,
        ensures
            self.valid_state(self.walk(i, s)->Some_0),
        decreases s.len(),
    {
        if s.len() > 0 {
            self.lemma_step_valid(i, s[0]);
            self.lemma_walk_valid(self.step(i, s[0]), s.drop_first());
        }
    }
}

} // verus!
