//! The first place at which something is wrong: failures are reported for
//! the earliest offender, so the contracts need a name for it.

use vstd::prelude::*;

verus! {

/// The least `i` in `0..n` with `bad(i)`, if there is one.
pub open spec fn first_index(n: int, bad: spec_fn(int) -> bool) -> Option<int>
    decreases n,
{
    if n <= 0 {
        None
    } else {
        match first_index(n - 1, bad) {
            Some(i) => Some(i),
            None => if bad(n - 1) {
                Some(n - 1)
            } else {
                None
            },
        }
    }
}

/// `first_index` finds nothing exactly if nothing in `0..n` is bad, and what
/// it finds is bad and has nothing bad before it.
pub proof fn lemma_first_index(n: int, bad: spec_fn(int) -> bool)
    ensures
        first_index(n, bad) is None <==> forall|i: int| 0 <= i < n ==> !#[trigger] bad(i),
        first_index(n, bad) is Some ==> {
            let i = first_index(n, bad)->0;
            &&& 0 <= i < n
            &&& bad(i)
            &&& forall|j: int| 0 <= j < i ==> !#[trigger] bad(j)
        },
    decreases n,
{
    if n > 0 {
        lemma_first_index(n - 1, bad);
    }
}

/// The place `i` is the first bad one in `0..n` if it is bad and nothing
/// before it is.
pub proof fn lemma_first_index_is(n: int, bad: spec_fn(int) -> bool, i: int)
    requires
        0 <= i < n,
        bad(i),
        forall|j: int| 0 <= j < i ==> !#[trigger] bad(j),
    ensures
        first_index(n, bad) == Some(i),
{
    lemma_first_index(n, bad);
    let found = first_index(n, bad);
    if found is None {
        assert(!bad(i));
    } else {
        let k = found->0;
        if k < i {
            assert(!bad(k));
        } else if i < k {
            assert(!bad(i));
        }
    }
}

} // verus!
