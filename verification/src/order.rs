//! Facts about ordered lists.

use vstd::prelude::*;

verus! {

/// Inserting an element puts it, if it satisfies the predicate, between what is kept
/// before and after it.
pub proof fn lemma_insert_filter<T>(s: Seq<T>, i: int, x: T, keep: spec_fn(T) -> bool)
    requires
        0 <= i <= s.len(),
    ensures
        s.insert(i, x).filter(keep) == s.take(i).filter(keep) + seq![x].filter(keep) + s.skip(
            i,
        ).filter(keep),
{
    assert(s.insert(i, x) =~= s.take(i) + seq![x] + s.skip(i));
    Seq::filter_distributes_over_add(s.take(i) + seq![x], s.skip(i), keep);
    Seq::filter_distributes_over_add(s.take(i), seq![x], keep);
}

/// A list of one element keeps it or not.
pub proof fn lemma_filter_one<T>(x: T, keep: spec_fn(T) -> bool)
    ensures
        seq![x].filter(keep) == (if keep(x) {
            seq![x]
        } else {
            Seq::empty()
        }),
{
    reveal(Seq::filter);
    assert(seq![x].drop_last() =~= Seq::empty());
    assert(seq![x].last() == x);
    assert(Seq::<T>::empty().filter(keep) =~= Seq::empty());
    assert(Seq::<T>::empty().push(x) =~= seq![x]);
}

/// Nothing is kept of a list in which nothing satisfies the predicate.
pub proof fn lemma_filter_none<T>(s: Seq<T>, keep: spec_fn(T) -> bool)
    requires
        forall|i: int| 0 <= i < s.len() ==> !keep(#[trigger] s[i]),
    ensures
        s.filter(keep) == Seq::<T>::empty(),
    decreases s.len(),
{
    reveal(Seq::filter);
    if s.len() > 0 {
        lemma_filter_none(s.drop_last(), keep);
    }
}

/// Inserting an element before all others that satisfy the predicate puts it first
/// among those, or changes nothing where it does not satisfy it.
pub proof fn lemma_insert_first<T>(s: Seq<T>, i: int, x: T, keep: spec_fn(T) -> bool)
    requires
        0 <= i <= s.len(),
        keep(x) ==> forall|k: int| 0 <= k < i ==> !keep(#[trigger] s[k]),
    ensures
        s.insert(i, x).filter(keep) == (if keep(x) {
            seq![x] + s.filter(keep)
        } else {
            s.filter(keep)
        }),
{
    lemma_insert_filter(s, i, x, keep);
    lemma_filter_one(x, keep);
    assert(s =~= s.take(i) + s.skip(i));
    Seq::filter_distributes_over_add(s.take(i), s.skip(i), keep);
    if keep(x) {
        lemma_filter_none(s.take(i), keep);
        assert(s.filter(keep) =~= s.skip(i).filter(keep));
        assert(s.insert(i, x).filter(keep) =~= seq![x] + s.filter(keep));
    } else {
        assert(s.insert(i, x).filter(keep) =~= s.filter(keep));
    }
}

/// A list keeps those of its elements that satisfy the predicate.
pub proof fn lemma_filter_member<T>(s: Seq<T>, keep: spec_fn(T) -> bool, x: T)
    ensures
        s.filter(keep).contains(x) <==> s.contains(x) && keep(x),
    decreases s.len(),
{
    reveal(Seq::filter);
    if s.len() > 0 {
        let rest = s.drop_last();
        lemma_filter_member(rest, keep, x);
        if s.contains(x) {
            let i = choose|i: int| 0 <= i < s.len() && s[i] == x;
            if i < rest.len() {
                assert(rest[i] == x);
            }
        }
        if rest.contains(x) {
            let i = choose|i: int| 0 <= i < rest.len() && rest[i] == x;
            assert(s[i] == x);
        }
        assert(s[s.len() - 1] == s.last());
        if keep(s.last()) {
            let kept = rest.filter(keep);
            let all = kept.push(s.last());
            assert(all[kept.len() as int] == s.last());
            if kept.contains(x) {
                let i = choose|i: int| 0 <= i < kept.len() && kept[i] == x;
                assert(all[i] == x);
            }
            if all.contains(x) {
                let i = choose|i: int| 0 <= i < all.len() && all[i] == x;
                if i < kept.len() {
                    assert(kept[i] == x);
                }
            }
        }
    }
}

} // verus!
