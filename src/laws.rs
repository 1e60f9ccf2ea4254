use vstd::prelude::*;

use crate::model::{BuilderView, DfaView, Evaluation, Graph};

verus! {

/// Restarting and classifying without consuming anything accepts exactly
/// when the start state accepts; recognizing the empty sequence does the
/// same.
pub proof fn lemma_empty_input_classifies_start<S, T>(d: DfaView<S, T>)
    requires
        d.wf(),
    ensures
        (d.restarted().eval() == Evaluation::Accept) <==> d.graph.accept[d.start],
        d.runs(Seq::empty()),
        d.after_run(Seq::empty()) == d.restarted(),
{
}

/// From a dead state every symbol can be consumed, the cursor stays where
/// it is, and the classification is Reject.
pub proof fn lemma_dead_state_absorbs<S, T>(d: DfaView<S, T>, t: T)
    requires
        d.wf(),
        d.graph.dead[d.current],
    ensures
        d.can_advance(t),
        d.advanced(t) == d,
        d.eval() == Evaluation::Reject,
        d.advanced(t).eval() == Evaluation::Reject,
{
}

/// From a goal state every symbol can be consumed, the cursor stays where
/// it is, and the classification is Accept.
pub proof fn lemma_goal_state_absorbs<S, T>(d: DfaView<S, T>, t: T)
    requires
        d.wf(),
        d.graph.goal[d.current],
    ensures
        d.can_advance(t),
        d.advanced(t) == d,
        d.eval() == Evaluation::Accept,
        d.advanced(t).eval() == Evaluation::Accept,
{
}

/// A walk from a dead or goal state consumes any sequence and ends where it
/// began.
pub proof fn lemma_absorbing_walk<S, T>(g: Graph<S, T>, i: int, ts: Seq<T>)
    requires
        g.is_absorbing(i),
    ensures
        g.walk(i, ts) == Some(i),
    decreases ts.len(),
{
    if ts.len() > 0 {
        lemma_absorbing_walk(g, i, ts.drop_first());
    }
}

/// A builder in which some live state lacks an edge for a symbol of the
/// table does not build.
pub proof fn lemma_incomplete_table_fails<S, T>(b: BuilderView<S, T>)
    requires
        b.wf(),
        b.graph.missing_edge(),
    ensures
        b.outcome() is Err,
{
}

/// Folding `advanced` over `ts` from the cursor on state `i` follows the
/// walk from `i`.
proof fn lemma_fold_follows_walk<S, T>(d: DfaView<S, T>, i: int, ts: Seq<T>)
    ensures
        d.at(i).fold_advanced(ts) == match d.graph.walk(i, ts) {
            Some(j) => Some(d.at(j)),
            None => None,
        },
    decreases ts.len(),
{
    let g = d.graph;
    if ts.len() > 0 {
        let pre = ts.drop_last();
        let last = ts.last();
        lemma_fold_follows_walk(d, i, pre);
        let one = seq![last];
        assert(pre + one =~= ts);
        g.lemma_walk_append(i, pre, one);
        assert(one.drop_first() =~= Seq::<T>::empty());
        if let Some(j) = g.walk(i, pre) {
            if g.can_step(j, last) {
                assert(g.walk(g.step(j, last), one.drop_first()) == Some(g.step(j, last)));
            }
            assert(d.at(j).advanced(last) == d.at(g.step(j, last)));
        }
    }
}

/// Recognizing a sequence is restarting, then stepping on each symbol in
/// order, then classifying: the fold of single steps from the restarted
/// automaton succeeds exactly when the sequence runs, and it ends on the
/// automaton that recognition leaves behind.
pub proof fn lemma_recognize_is_folded_next<S, T>(d: DfaView<S, T>, ts: Seq<T>)
    requires
        d.wf(),
    ensures
        d.restarted().fold_advanced(ts) is Some <==> d.runs(ts),
        d.runs(ts) ==> d.restarted().fold_advanced(ts) == Some(d.after_run(ts)),
        d.runs(ts) ==> d.restarted().fold_advanced(ts)->Some_0.eval() == d.after_run(ts).eval(),
{
    lemma_fold_follows_walk(d, d.start, ts);
}

} // verus!
