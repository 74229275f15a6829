//! Finding the first of something.

use vstd::prelude::*;

verus! {

/// What `f` gives at the first of the positions below `n` where it gives
/// anything.
pub open spec fn first_some<A>(n: nat, f: spec_fn(int) -> Option<A>) -> Option<A>
    decreases n,
{
    if n == 0 {
        None
    } else {
        match first_some((n - 1) as nat, f) {
            Some(x) => Some(x),
            None => f(n - 1),
        }
    }
}

/// A first hit stays the first hit when more positions are looked at.
pub proof fn lemma_first_some_extends<A>(n: nat, m: nat, f: spec_fn(int) -> Option<A>)
    requires
        n <= m,
        first_some(n, f) is Some,
    ensures
        first_some(m, f) == first_some(n, f),
    decreases m,
{
    if n < m {
        lemma_first_some_extends(n, (m - 1) as nat, f);
    }
}

/// Nothing is found exactly where no position gives anything.
pub proof fn lemma_first_some_none<A>(n: nat, f: spec_fn(int) -> Option<A>)
    ensures
        first_some(n, f) is None <==> forall|i: int| 0 <= i < n ==> #[trigger] f(i) is None,
    decreases n,
{
    if n > 0 {
        lemma_first_some_none((n - 1) as nat, f);
        if first_some(n, f) is None {
            assert forall|i: int| 0 <= i < n implies #[trigger] f(i) is None by {
                if i < n - 1 {
                }
            }
        }
        if forall|i: int| 0 <= i < n ==> #[trigger] f(i) is None {
            assert(f(n - 1) is None);
        }
    }
}

/// What is found comes from one of the positions.
pub proof fn lemma_first_some_found<A>(n: nat, f: spec_fn(int) -> Option<A>) -> (i: int)
    requires
        first_some(n, f) is Some,
    ensures
        0 <= i < n,
        f(i) == first_some(n, f),
        forall|j: int| 0 <= j < i ==> #[trigger] f(j) is None,
    decreases n,
{
    if first_some((n - 1) as nat, f) is Some {
        lemma_first_some_found((n - 1) as nat, f)
    } else {
        lemma_first_some_none((n - 1) as nat, f);
        n - 1
    }
}

} // verus!
