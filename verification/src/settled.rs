//! What holds of a sweep's outcome: the anchor stays, nothing is lost, and
//! on a list that stands oldest first a second sweep finds nothing to prune.

use vstd::prelude::*;
use crate::filters::{lemma_filter_all, lemma_filter_none, lemma_filter_source, lemma_filter_split,
    lemma_empty_to_multiset};
use crate::snapshot::{Snapshot, oldest_first};
use crate::retention::{age, in_band, spared, doomed, pass_kept, pass_pruned, sweep_from,
    swept_out_from, sweep, swept_out, lemma_pass_shrinks};

verus! {

/// True when the first `n` snapshots of `s` have empty bands: no other
/// snapshot of `s`, before or after, lies in the band of one of them.
pub open spec fn settled(s: Seq<Snapshot>, n: int, now: int, d: int) -> bool {
    forall|i: int, j: int|
        0 <= i < n && i < s.len() && 0 <= j < s.len() && i != j ==> !in_band(
            age(#[trigger] s[j], now),
            age(#[trigger] s[i], now),
            d,
        )
}

/// Filtering keeps the order of creation.
proof fn lemma_filter_oldest_first(s: Seq<Snapshot>, p: spec_fn(Snapshot) -> bool)
    requires
        oldest_first(s),
    ensures
        oldest_first(s.filter(p)),
    decreases s.len(),
{
    reveal(Seq::filter);
    if s.len() > 0 {
        let init = s.drop_last();
        lemma_filter_oldest_first(init, p);
        let f = init.filter(p);
        if p(s.last()) {
            let r = f.push(s.last());
            assert forall|i: int, j: int| 0 <= i < j < r.len() implies r[i]@.created_at
                <= r[j]@.created_at by {
                if j == f.len() {
                    let src = lemma_filter_source(init, p, i);
                    assert(init[src] == s[src]);
                }
            }
        }
    }
}

/// The anchor of a pass is among the snapshots that the pass keeps, at the
/// place that the survivors before it leave for it; and the pass sorts every
/// snapshot into exactly one of its two outcomes.
pub proof fn lemma_anchor_survives(s: Seq<Snapshot>, idx: int, now: int, d: int)
    requires
        0 <= idx < s.len(),
    ensures
        pass_kept(s, idx, now, d).contains(s[idx]),
        ({
            let before = s.take(idx).filter(spared(now, age(s[idx], now), d)).len();
            before <= idx && before < pass_kept(s, idx, now, d).len() && pass_kept(
                s,
                idx,
                now,
                d,
            )[before as int] == s[idx]
        }),
        pass_kept(s, idx, now, d).len() + pass_pruned(s, idx, now, d).len() == s.len(),
        pass_kept(s, idx, now, d).to_multiset().add(pass_pruned(s, idx, now, d).to_multiset())
            == s.to_multiset(),
{
    let keep = spared(now, age(s[idx], now), d);
    let drop = doomed(now, age(s[idx], now), d);
    let front = s.take(idx);
    let back = s.skip(idx + 1);
    let before = front.filter(keep).len();
    front.lemma_filter_len(keep);
    assert(pass_kept(s, idx, now, d)[before as int] == s[idx]);
    lemma_filter_split(front, keep, drop);
    lemma_filter_split(back, keep, drop);
    assert(s =~= front.push(s[idx]) + back);
    vstd::seq_lib::lemma_multiset_commutative(front.push(s[idx]), back);
    vstd::seq_lib::lemma_multiset_commutative(front.filter(keep).push(s[idx]), back.filter(keep));
    vstd::seq_lib::lemma_multiset_commutative(front.filter(drop), back.filter(drop));
    vstd::seq_lib::to_multiset_build(front, s[idx]);
    vstd::seq_lib::to_multiset_build(front.filter(keep), s[idx]);
    assert(pass_kept(s, idx, now, d).to_multiset().add(pass_pruned(s, idx, now, d).to_multiset())
        =~= s.to_multiset());
}

/// The sweep sorts every snapshot into exactly one of its two outcomes:
/// what it keeps and what it prunes are, taken together, the snapshots that
/// went in, each as often as it went in. So the number pruned is the number
/// that went in less the number kept.
pub proof fn lemma_sweep_rearranges(s: Seq<Snapshot>, idx: int, now: int, d: int)
    ensures
        sweep_from(s, idx, now, d).len() + swept_out_from(s, idx, now, d).len() == s.len(),
        sweep_from(s, idx, now, d).to_multiset().add(swept_out_from(s, idx, now, d).to_multiset())
            == s.to_multiset(),
    decreases
            if idx < s.len() {
                s.len() - idx
            } else {
                0
            },
{
    if 0 <= idx < s.len() {
        let r = pass_kept(s, idx, now, d);
        lemma_anchor_survives(s, idx, now, d);
        lemma_pass_shrinks(s, idx, now, d);
        lemma_sweep_rearranges(r, idx + 1, now, d);
        vstd::seq_lib::lemma_multiset_commutative(
            pass_pruned(s, idx, now, d),
            swept_out_from(r, idx + 1, now, d),
        );
        assert(sweep_from(s, idx, now, d).to_multiset().add(
            swept_out_from(s, idx, now, d).to_multiset(),
        ) =~= s.to_multiset());
    } else {
        lemma_empty_to_multiset::<Snapshot>();
        assert(sweep_from(s, idx, now, d).to_multiset().add(
            swept_out_from(s, idx, now, d).to_multiset(),
        ) =~= s.to_multiset());
    }
}

/// On a list that stands oldest first and is settled up to `idx`, the pass
/// at `idx` leaves the front of the list as it is, keeps the order, and
/// settles the anchor as well.
proof fn lemma_pass_settles(s: Seq<Snapshot>, idx: int, now: int, d: int)
    requires
        0 <= idx < s.len(),
        oldest_first(s),
        settled(s, idx, now, d),
    ensures
        pass_kept(s, idx, now, d).len() > idx,
        pass_kept(s, idx, now, d).take(idx + 1) == s.take(idx + 1),
        oldest_first(pass_kept(s, idx, now, d)),
        settled(pass_kept(s, idx, now, d), idx + 1, now, d),
{
    let t = age(s[idx], now);
    let keep = spared(now, t, d);
    let front = s.take(idx);
    let back = s.skip(idx + 1);
    let r = pass_kept(s, idx, now, d);
    assert forall|j: int| 0 <= j < front.len() implies keep(#[trigger] front[j]) by {
        let a = age(s[j], now);
        assert(s[j]@.created_at <= s[idx]@.created_at);
        if a == t {
            assert(!in_band(age(s[idx], now), age(s[j], now), d));
            assert(t * d - t > t * d);
        }
    }
    lemma_filter_all(front, keep);
    let kept_back = back.filter(keep);
    assert(r =~= s.take(idx + 1) + kept_back);
    assert(r.take(idx + 1) =~= s.take(idx + 1));
    lemma_filter_oldest_first(back, keep);
    assert forall|i: int, j: int| 0 <= i < j < r.len() implies r[i]@.created_at
        <= r[j]@.created_at by {
        if j > idx {
            let src = lemma_filter_source(back, keep, j - idx - 1);
            assert(r[j] == s[src + idx + 1]);
            if i > idx {
                assert(r[i] == kept_back[i - idx - 1]);
                assert(r[j] == kept_back[j - idx - 1]);
            } else {
                assert(r[i] == s[i]);
            }
        } else {
            assert(r[i] == s[i]);
            assert(r[j] == s[j]);
        }
    }
    assert forall|i: int, j: int|
        0 <= i < idx + 1 && i < r.len() && 0 <= j < r.len() && i != j implies !in_band(
        age(#[trigger] r[j], now),
        age(#[trigger] r[i], now),
        d,
    ) by {
        assert(r[i] == s[i]);
        if j > idx {
            let src = lemma_filter_source(back, keep, j - idx - 1);
            assert(r[j] == s[src + idx + 1]);
            if i == idx {
                assert(keep(r[j]));
            }
        } else {
            assert(r[j] == s[j]);
            if i == idx {
                assert(keep(front[j]));
            }
        }
    }
}

/// True when each snapshot of `gone` lies in the band of a snapshot of `kept`.
pub open spec fn pruned_for_cause(gone: Seq<Snapshot>, kept: Seq<Snapshot>, now: int, d: int)
    -> bool {
    forall|i: int|
        0 <= i < gone.len() ==> exists|j: int|
            0 <= j < kept.len() && in_band(age(#[trigger] gone[i], now), age(#[trigger] kept[j], now), d)
}

/// Sweeping a list that stands oldest first, from a position up to which it
/// is settled, leaves the snapshots before that position where they are and
/// gives a list that is settled throughout; and whatever it prunes lies in
/// the band of a snapshot that it keeps.
proof fn lemma_sweep_settles(s: Seq<Snapshot>, idx: int, now: int, d: int)
    requires
        0 <= idx <= s.len(),
        oldest_first(s),
        settled(s, idx, now, d),
    ensures
        settled(sweep_from(s, idx, now, d), sweep_from(s, idx, now, d).len() as int, now, d),
        oldest_first(sweep_from(s, idx, now, d)),
        sweep_from(s, idx, now, d).len() >= idx,
        forall|k: int| 0 <= k < idx ==> sweep_from(s, idx, now, d)[k] == s[k],
        pruned_for_cause(swept_out_from(s, idx, now, d), sweep_from(s, idx, now, d), now, d),
    decreases s.len() - idx,
{
    if idx < s.len() {
        let r = pass_kept(s, idx, now, d);
        let kept = sweep_from(s, idx, now, d);
        let drop = doomed(now, age(s[idx], now), d);
        let first = pass_pruned(s, idx, now, d);
        let rest = swept_out_from(r, idx + 1, now, d);
        lemma_pass_settles(s, idx, now, d);
        lemma_pass_shrinks(s, idx, now, d);
        lemma_sweep_settles(r, idx + 1, now, d);
        assert(kept == sweep_from(r, idx + 1, now, d));
        assert forall|k: int| 0 <= k < idx + 1 implies kept[k] == s[k] by {
            assert(kept[k] == r[k]);
            assert(r[k] == r.take(idx + 1)[k]);
            assert(s[k] == s.take(idx + 1)[k]);
        }
        assert forall|i: int| 0 <= i < first.len() + rest.len() implies exists|j: int|
            0 <= j < kept.len() && in_band(
                age(#[trigger] (first + rest)[i], now),
                age(#[trigger] kept[j], now),
                d,
            ) by {
            if i < first.len() {
                let front = s.take(idx).filter(drop);
                if i < front.len() {
                    let src = lemma_filter_source(s.take(idx), drop, i);
                } else {
                    let src = lemma_filter_source(s.skip(idx + 1), drop, i - front.len());
                }
                assert(drop((first + rest)[i]));
                assert(in_band(age((first + rest)[i], now), age(kept[idx], now), d));
            } else {
                assert((first + rest)[i] == rest[i - first.len()]);
            }
        }
    }
}

/// A sweep of a list that is settled throughout keeps all of it.
proof fn lemma_settled_stays(s: Seq<Snapshot>, idx: int, now: int, d: int)
    requires
        settled(s, s.len() as int, now, d),
    ensures
        sweep_from(s, idx, now, d) == s,
        swept_out_from(s, idx, now, d) == Seq::<Snapshot>::empty(),
    decreases
            if idx < s.len() {
                s.len() - idx
            } else {
                0
            },
{
    if 0 <= idx < s.len() {
        let t = age(s[idx], now);
        let keep = spared(now, t, d);
        let drop = doomed(now, t, d);
        let front = s.take(idx);
        let back = s.skip(idx + 1);
        assert forall|j: int| 0 <= j < front.len() implies keep(#[trigger] front[j]) && !drop(
            front[j],
        ) by {
            assert(front[j] == s[j]);
        }
        assert forall|j: int| 0 <= j < back.len() implies keep(#[trigger] back[j]) && !drop(
            back[j],
        ) by {
            assert(back[j] == s[j + idx + 1]);
        }
        lemma_filter_all(front, keep);
        lemma_filter_all(back, keep);
        lemma_filter_none(front, drop);
        lemma_filter_none(back, drop);
        assert(pass_kept(s, idx, now, d) =~= s);
        assert(pass_pruned(s, idx, now, d) =~= Seq::<Snapshot>::empty());
        lemma_settled_stays(s, idx + 1, now, d);
    }
}

/// On a list that stands oldest first, nothing is pruned without cause: each
/// pruned snapshot lies in the band of a snapshot that the sweep keeps.
pub proof fn lemma_pruned_for_cause(s: Seq<Snapshot>, now: int, d: int)
    requires
        oldest_first(s),
    ensures
        pruned_for_cause(swept_out(s, now, d), sweep(s, now, d), now, d),
{
    lemma_sweep_settles(s, 0, now, d);
}

/// What a sweep keeps of a list that stands oldest first still stands oldest
/// first, and a second sweep at the same moment and rate keeps all of it and
/// prunes nothing.
pub proof fn lemma_sweep_is_fixed_point(s: Seq<Snapshot>, now: int, d: int)
    requires
        oldest_first(s),
    ensures
        oldest_first(sweep(s, now, d)),
        sweep(sweep(s, now, d), now, d) == sweep(s, now, d),
        swept_out(sweep(s, now, d), now, d) == Seq::<Snapshot>::empty(),
{
    lemma_sweep_settles(s, 0, now, d);
    lemma_settled_stays(sweep(s, now, d), 0, now, d);
}

} // verus!
