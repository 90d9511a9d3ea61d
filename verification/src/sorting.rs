//! What inserting into a sequence does to its filtered subsequences: the step
//! behind the stable insertion sorts of the library.
use vstd::prelude::*;

verus! {

broadcast use vstd::seq_lib::group_seq_lib_default;

/// Inserting `x` at `p` adds `x` to the subsequence that `f` selects, at its
/// end when no selected element follows `p`, and leaves the other
/// subsequences as they were.
pub proof fn lemma_filter_insert<A>(r: Seq<A>, p: int, x: A, f: spec_fn(A) -> bool)
    requires
        0 <= p <= r.len(),
        f(x) ==> forall|j: int| p <= j < r.len() ==> !f(#[trigger] r[j]),
    ensures
        r.insert(p, x).filter(f) == if f(x) {
            r.filter(f).push(x)
        } else {
            r.filter(f)
        },
{
    let front = r.take(p);
    let back = r.skip(p);
    assert(r.insert(p, x) =~= front + seq![x] + back);
    assert(r =~= front + back);
    assert(seq![x] =~= Seq::<A>::empty().push(x));
    Seq::<A>::empty().lemma_filter_push(x, f);
    assert(Seq::<A>::empty().filter(f) =~= Seq::<A>::empty()) by {
        reveal(Seq::filter);
    }
    if f(x) {
        assert forall|j: int| 0 <= j < back.len() implies !f(back[j]) by {
            assert(back[j] == r[p + j]);
        }
        back.lemma_all_neg_filter_empty(f);
        assert(back.filter(f) =~= Seq::<A>::empty());
        assert((front + seq![x]).filter(f) == front.filter(f) + seq![x].filter(f));
        assert(r.filter(f) == front.filter(f) + back.filter(f));
        assert(r.insert(p, x).filter(f) =~= r.filter(f).push(x));
    } else {
        assert((front + seq![x]).filter(f) == front.filter(f) + seq![x].filter(f));
        assert(r.insert(p, x).filter(f) =~= r.filter(f));
    }
}

} // verus!
