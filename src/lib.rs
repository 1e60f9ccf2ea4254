//! A generic deterministic finite automaton: a builder that validates the
//! declared structure, and an automaton that classifies symbol sequences.
//!
//! States and symbols are small handle values (`Copy + Eq`). The library
//! interns them in arenas and refers to them by index everywhere else. The
//! contracts ask that `==` on them be value equality
//! (`vstd::laws_eq::obeys_concrete_eq`), as it is for integers, `char` and
//! string slices.
//!
//! Construction errors do not abort: the builder records the first one and
//! `build` returns it. Stepping a live state with a symbol outside the
//! alphabet is excluded by `next`'s precondition, and reported by `try_next`.

mod model;
mod lookup;
mod dfa;
mod builder;
mod laws;

pub use dfa::DFA;
pub use laws::{
    lemma_absorbing_walk, lemma_dead_state_absorbs, lemma_empty_input_classifies_start,
    lemma_goal_state_absorbs, lemma_incomplete_table_fails, lemma_recognize_is_folded_next,
};
pub use builder::DFABuilder;
pub use model::{BuilderView, DFAError, DfaView, Evaluation, Graph};
