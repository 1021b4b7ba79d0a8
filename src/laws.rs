//! Laws that relate the operations of the bitset traits.

use crate::{BitSet, BitSetMut, Layered};
use crate::{all_clear, find_set_answer, flags_after_set};
use vstd::prelude::*;

verus! {

/// After `set(i, true)` the flag at `i` reads set; after a following
/// `set(i, false)` it reads clear.
pub proof fn law_set_clear_round_trip<S: BitSetMut>(a: S, b: S, c: S, i: u32)
    requires
        a.wf(),
        i < S::capacity(),
        b.flags() == flags_after_set(a.flags(), i, true),
        c.flags() == flags_after_set(b.flags(), i, false),
    ensures
        b.flags()[i as int],
        !c.flags()[i as int],
{
    a.lemma_wf();
}

/// A bitset is empty exactly when the search for a set flag from index 0
/// finds nothing.
pub proof fn law_empty_iff_nothing_from_zero<S: BitSet>(x: S)
    requires
        x.wf(),
    ensures
        forall|r: Option<u32>|
            #[trigger] find_set_answer(x.flags(), 0, r) ==> (r is None <==> all_clear(x.flags())),
{
    assert forall|r: Option<u32>| #[trigger] find_set_answer(x.flags(), 0, r) implies (r is None
        <==> all_clear(x.flags())) by {
        if let Some(i) = r {
            assert(x.flags()[i as int]);
        }
    }
}

/// When the search from `k` finds index `i`, the flag at `i` is set, `i` is
/// at least `k`, and no flag from `k` up to `i` is set.
pub proof fn law_find_set_minimal<S: BitSet>(x: S, k: u32, i: u32)
    requires
        x.wf(),
        find_set_answer(x.flags(), k as int, Some(i)),
    ensures
        x.flags()[i as int],
        k <= i,
        forall|j: int| k <= j < i ==> !#[trigger] x.flags()[j],
{
}

/// A layered bitset has as many flags as a bucket times the number of
/// buckets.
pub proof fn law_capacity_composition<T: BitSet, B: BitSet, const N: usize>()
    ensures
        Layered::<T, B, N>::capacity() == B::capacity() * N,
{
}

/// An optional layer that held no set flag, after `set(i, true)` and then
/// `set(i, false)`, is absent again.
pub proof fn law_sparse_reclamation<T: BitSet>(a: Option<T>, b: Option<T>, c: Option<T>, i: u32)
    requires
        a.wf(),
        all_clear(a.flags()),
        i < T::capacity(),
        b.wf(),
        b.flags() == flags_after_set(a.flags(), i, true),
        c.wf(),
        c.flags() == flags_after_set(b.flags(), i, false),
    ensures
        c is None,
{
    a.lemma_wf();
    if let Some(inner) = c {
        assert(c.flags() =~= a.flags());
        assert(all_clear(inner.flags()));
    }
}

} // verus!
