use vstd::laws_eq::obeys_concrete_eq;
use vstd::prelude::*;
use vstd::std_specs::cmp::PartialEqSpec;

verus! {

/// The position of `x` in `v`, comparing with `==`.
pub(crate) fn position<A: Eq>(v: &Vec<A>, x: &A) -> (r: Option<usize>)
    requires
        obeys_concrete_eq::<A>(),
    ensures
        match r {
            Some(i) => i < v@.len() && v@[i as int] == *x,
            None => !v@.contains(*x),
        },
{
    let mut i: usize = 0;
    while i < v.len()
        invariant
            obeys_concrete_eq::<A>(),
            i <= v@.len(),
            forall|j: int| 0 <= j < i ==> v@[j] != *x,
        decreases v@.len() - i,
    {
        let same = v[i].eq(x);
        proof {
            reveal(obeys_concrete_eq);
        }
        if same {
            return Some(i);
        }
        i = i + 1;
    }
    None
}

/// In a sequence without duplicates, `index_of` finds the one position
/// that holds the value.
pub proof fn lemma_index_of_unique<A>(s: Seq<A>, i: int, x: A)
    requires
        s.no_duplicates(),
        0 <= i < s.len(),
        s[i] == x,
    ensures
        s.index_of(x) == i,
{
    assert(s.contains(x));
}

} // verus!
