//! Putting snapshots in the order of their creation.

use vstd::prelude::*;
use crate::filters::{lemma_filter_none, lemma_filter_source};
use crate::snapshot::{Snapshot, SnapshotView, oldest_first, views};

verus! {

/// The snapshots that were taken at the second `t`.
pub open spec fn taken_at(t: int) -> spec_fn(Snapshot) -> bool {
    |s: Snapshot| s@.created_at == t
}

/// True when `a` and `b` hold the same snapshots for each creation time, in
/// the same order.
pub open spec fn same_within_times(a: Seq<Snapshot>, b: Seq<Snapshot>) -> bool {
    forall|t: int| #[trigger] a.filter(taken_at(t)) == b.filter(taken_at(t))
}

/// The same choice among what the records say.
pub open spec fn view_taken_at(t: int) -> spec_fn(SnapshotView) -> bool {
    |v: SnapshotView| v.created_at == t
}

/// Choosing by creation time among the records, or among what they say,
/// comes to the same.
pub proof fn lemma_views_filter(s: Seq<Snapshot>, t: int)
    ensures
        views(s.filter(taken_at(t))) == views(s).filter(view_taken_at(t)),
    decreases s.len(),
{
    reveal(Seq::filter);
    if s.len() == 0 {
        assert(views(s) =~= Seq::<SnapshotView>::empty());
        assert(views(s.filter(taken_at(t))) =~= Seq::<SnapshotView>::empty());
    } else {
        let init = s.drop_last();
        lemma_views_filter(init, t);
        assert(views(s).drop_last() =~= views(init));
        if taken_at(t)(s.last()) {
            assert(views(init.filter(taken_at(t)).push(s.last())) =~= views(
                init.filter(taken_at(t)),
            ).push(s.last()@));
        }
    }
}

/// True when what the records say stands oldest first.
pub open spec fn views_oldest_first(v: Seq<SnapshotView>) -> bool {
    forall|i: int, j: int| 0 <= i < j < v.len() ==> v[i].created_at <= v[j].created_at
}

/// Records stand oldest first when what they say does.
pub proof fn lemma_views_oldest_first(s: Seq<Snapshot>)
    ensures
        oldest_first(s) <==> views_oldest_first(views(s)),
{
    if oldest_first(s) {
        assert forall|i: int, j: int| 0 <= i < j < views(s).len() implies views(s)[i].created_at
            <= views(s)[j].created_at by {
            assert(views(s)[i] == s[i]@ && views(s)[j] == s[j]@);
        }
    }
    if views_oldest_first(views(s)) {
        assert forall|i: int, j: int| 0 <= i < j < s.len() implies s[i]@.created_at
            <= s[j]@.created_at by {
            assert(views(s)[i] == s[i]@ && views(s)[j] == s[j]@);
        }
    }
}

/// The order is settled by the two things that are asked of it: lists that
/// stand oldest first and hold, for each creation time, the same records in
/// the same order are one and the same list.
pub proof fn lemma_order_is_unique(a: Seq<SnapshotView>, b: Seq<SnapshotView>)
    requires
        views_oldest_first(a),
        views_oldest_first(b),
        forall|t: int| #[trigger] a.filter(view_taken_at(t)) == b.filter(view_taken_at(t)),
    ensures
        a == b,
    decreases a.len() + b.len(),
{
    reveal(Seq::filter);
    if a.len() == 0 && b.len() == 0 {
        assert(a =~= b);
    } else if a.len() == 0 || b.len() == 0 {
        let full = if a.len() == 0 {
            b
        } else {
            a
        };
        let f = view_taken_at(full.last().created_at);
        full.lemma_filter_contains(f, full.len() - 1);
        assert(a.filter(f) == b.filter(f));
    } else {
        let x = a.last();
        let y = b.last();
        let fx = view_taken_at(x.created_at);
        let fy = view_taken_at(y.created_at);
        a.drop_last().lemma_filter_push(x, fx);
        b.drop_last().lemma_filter_push(y, fy);
        assert(a.drop_last().push(x) =~= a);
        assert(b.drop_last().push(y) =~= b);
        assert(a.filter(fx) == b.filter(fx));
        assert(a.filter(fy) == b.filter(fy));
        let in_b = lemma_filter_source(b, fx, b.filter(fx).len() - 1);
        let in_a = lemma_filter_source(a, fy, a.filter(fy).len() - 1);
        assert(x.created_at == y.created_at);
        assert(x == a.filter(fx).last());
        assert(y == b.filter(fx).last());
        assert forall|t: int| #[trigger]
            a.drop_last().filter(view_taken_at(t)) == b.drop_last().filter(
                view_taken_at(t),
            ) by {
            let f = view_taken_at(t);
            a.drop_last().lemma_filter_push(x, f);
            b.drop_last().lemma_filter_push(y, f);
            assert(a.filter(f) == b.filter(f));
            if f(x) {
                assert(a.drop_last().filter(f) =~= a.filter(f).drop_last());
                assert(b.drop_last().filter(f) =~= b.filter(f).drop_last());
            }
        }
        lemma_order_is_unique(a.drop_last(), b.drop_last());
    }
}

/// The place for a snapshot taken at `time` in a list that stands oldest
/// first: behind every snapshot that is no younger than it.
fn slot_for(out: &Vec<Snapshot>, time: i64) -> (p: usize)
    requires
        oldest_first(out@),
    ensures
        p <= out@.len(),
        forall|k: int| 0 <= k < p ==> out@[k]@.created_at <= time,
        forall|k: int| p <= k < out@.len() ==> out@[k]@.created_at > time,
{
    let mut p: usize = out.len();
    while p > 0 && out[p - 1].created_at() > time
        invariant
            p <= out@.len(),
            forall|k: int| p <= k < out@.len() ==> out@[k]@.created_at > time,
        decreases p,
    {
        p = p - 1;
    }
    p
}

/// Putting `x` into its slot keeps the order of creation, and adds `x` behind
/// the snapshots of its own second.
proof fn lemma_slot_insert(old: Seq<Snapshot>, p: int, x: Snapshot, t: int)
    requires
        oldest_first(old),
        0 <= p <= old.len(),
        forall|k: int| 0 <= k < p ==> old[k]@.created_at <= x@.created_at,
        forall|k: int| p <= k < old.len() ==> old[k]@.created_at > x@.created_at,
    ensures
        oldest_first(old.insert(p, x)),
        old.insert(p, x).filter(taken_at(t)) == if x@.created_at == t {
            old.filter(taken_at(t)).push(x)
        } else {
            old.filter(taken_at(t))
        },
{
    let f = taken_at(t);
    let front = old.subrange(0, p);
    let back = old.subrange(p, old.len() as int);
    let new = old.insert(p, x);
    assert forall|i: int, j: int| 0 <= i < j < new.len() implies new[i]@.created_at
        <= new[j]@.created_at by {
        if j < p {
            assert(new[i] == old[i] && new[j] == old[j]);
        } else if j == p {
            assert(new[i] == old[i]);
        } else if i < p {
            assert(new[i] == old[i] && new[j] == old[j - 1]);
        } else if i == p {
            assert(new[j] == old[j - 1]);
        } else {
            assert(new[i] == old[i - 1] && new[j] == old[j - 1]);
        }
    }
    assert(old =~= front + back);
    Seq::filter_distributes_over_add(front, back, f);
    Seq::filter_distributes_over_add(front.push(x), back, f);
    front.lemma_filter_push(x, f);
    if x@.created_at == t {
        assert forall|k: int| 0 <= k < back.len() implies !f(#[trigger] back[k]) by {
            assert(back[k] == old[k + p]);
        }
        lemma_filter_none(back, f);
        assert(front.filter(f).push(x) + Seq::<Snapshot>::empty() =~= (front.filter(f)
            + Seq::<Snapshot>::empty()).push(x));
    }
}

/// Sorts the snapshots oldest first. Snapshots of the same second keep the
/// order in which they came.
pub fn sort_oldest_first(snaps: Vec<Snapshot>) -> (r: Vec<Snapshot>)
    ensures
        oldest_first(r@),
        same_within_times(r@, snaps@),
        r@.len() == snaps@.len(),
        r@.to_multiset() == snaps@.to_multiset(),
        views(r@).to_multiset() == views(snaps@).to_multiset(),
{
    let ghost all = snaps@;
    let n: usize = snaps.len();
    let mut out: Vec<Snapshot> = Vec::new();
    let mut i: usize = 0;
    proof {
        assert(all.take(0) =~= out@);
    }
    for snap in it: snaps
        invariant
            i == it.index(),
            it.seq() == all,
            all.len() == n,
            out@.len() == i,
            oldest_first(out@),
            same_within_times(out@, all.take(i as int)),
            out@.to_multiset() == all.take(i as int).to_multiset(),
            views(out@).to_multiset() == views(all.take(i as int)).to_multiset(),
    {
        let p: usize = slot_for(&out, snap.created_at());
        proof {
            let before = out@;
            assert(all.take(i + 1) =~= all.take(i as int).push(snap));
            assert forall|t: int|
                #[trigger] before.insert(p as int, snap).filter(taken_at(t)) == all.take(
                    i + 1,
                ).filter(taken_at(t)) by {
                lemma_slot_insert(before, p as int, snap, t);
                all.take(i as int).lemma_filter_push(snap, taken_at(t));
                assert(before.filter(taken_at(t)) == all.take(i as int).filter(taken_at(t)));
            }
            lemma_slot_insert(before, p as int, snap, 0);
            vstd::seq_lib::to_multiset_insert(before, p as int, snap);
            vstd::seq_lib::to_multiset_build(all.take(i as int), snap);
            assert(views(before.insert(p as int, snap)) =~= views(before).insert(p as int, snap@));
            assert(views(all.take(i + 1)) =~= views(all.take(i as int)).push(snap@));
            vstd::seq_lib::to_multiset_insert(views(before), p as int, snap@);
            vstd::seq_lib::to_multiset_build(views(all.take(i as int)), snap@);
        }
        out.insert(p, snap);
        i = i + 1;
    }
    proof {
        assert(all.take(all.len() as int) =~= all);
    }
    out
}

} // verus!
