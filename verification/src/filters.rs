//! Facts about filtered sequences that the proofs of this crate share.

use vstd::prelude::*;

verus! {

/// A filter that every element passes changes nothing.
pub proof fn lemma_filter_all<T>(s: Seq<T>, p: spec_fn(T) -> bool)
    requires
        forall|i: int| 0 <= i < s.len() ==> p(#[trigger] s[i]),
    ensures
        s.filter(p) == s,
    decreases s.len(),
{
    reveal(Seq::filter);
    if s.len() > 0 {
        lemma_filter_all(s.drop_last(), p);
        assert(s.drop_last().push(s.last()) =~= s);
    }
}

/// A filter that no element passes leaves nothing.
pub proof fn lemma_filter_none<T>(s: Seq<T>, p: spec_fn(T) -> bool)
    requires
        forall|i: int| 0 <= i < s.len() ==> !p(#[trigger] s[i]),
    ensures
        s.filter(p) == Seq::<T>::empty(),
    decreases s.len(),
{
    reveal(Seq::filter);
    if s.len() > 0 {
        lemma_filter_none(s.drop_last(), p);
    }
}

/// Each element that a filter lets through passes it and comes from the
/// sequence that was filtered.
pub proof fn lemma_filter_source<T>(s: Seq<T>, p: spec_fn(T) -> bool, k: int) -> (j: int)
    requires
        0 <= k < s.filter(p).len(),
    ensures
        0 <= j < s.len(),
        s[j] == s.filter(p)[k],
        p(s[j]),
{
    let e = s.filter(p)[k];
    s.lemma_filter_pred(p, k);
    assert(s.filter(p).contains(e));
    s.lemma_filter_contains_rev(p, e);
    choose|j: int| 0 <= j < s.len() && s[j] == e
}

/// The empty sequence holds nothing.
pub proof fn lemma_empty_to_multiset<T>()
    ensures
        Seq::<T>::empty().to_multiset() == vstd::multiset::Multiset::<T>::empty(),
{
    broadcast use vstd::multiset::group_multiset_axioms;

    let e = Seq::<T>::empty();
    e.to_multiset_ensures();
    assert forall|a: T| e.to_multiset().count(a) == 0 by {
        assert(!e.contains(a));
    }
    assert(e.to_multiset() =~= vstd::multiset::Multiset::<T>::empty());
}

/// What passes a filter and what fails it make up the whole.
pub proof fn lemma_filter_split<T>(s: Seq<T>, p: spec_fn(T) -> bool, q: spec_fn(T) -> bool)
    requires
        forall|x: T| #[trigger] p(x) == !q(x),
    ensures
        s.filter(p).len() + s.filter(q).len() == s.len(),
        s.filter(p).to_multiset().add(s.filter(q).to_multiset()) == s.to_multiset(),
    decreases s.len(),
{
    reveal(Seq::filter);
    if s.len() > 0 {
        let init = s.drop_last();
        let last = s.last();
        lemma_filter_split(init, p, q);
        assert(init.push(last) =~= s);
        vstd::seq_lib::to_multiset_build(init, last);
        vstd::seq_lib::to_multiset_build(init.filter(p), last);
        vstd::seq_lib::to_multiset_build(init.filter(q), last);
        assert(s.filter(p).to_multiset().add(s.filter(q).to_multiset()) =~= s.to_multiset());
    } else {
        lemma_empty_to_multiset::<T>();
        assert(s =~= Seq::<T>::empty());
        assert(s.filter(p).to_multiset().add(s.filter(q).to_multiset()) =~= s.to_multiset());
    }
}

} // verus!
