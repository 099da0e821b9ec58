//! The decay-radius sweep: which snapshots stay and which are pruned.

use vstd::prelude::*;
use crate::filters::lemma_filter_none;
use crate::snapshot::Snapshot;
use crate::stamp::current_seconds;

verus! {

/// A decay rate: the radius round an anchor is the anchor's age divided by
/// the divisor, so a larger divisor leaves the snapshots denser.
pub struct Decay {
    divisor: i64,
}

impl View for Decay {
    type V = int;

    closed spec fn view(&self) -> int {
        self.divisor as int
    }
}

impl Decay {
    #[verifier::type_invariant]
    spec fn positive(&self) -> bool {
        self.divisor > 0
    }

    /// The decay rate with the given divisor; none unless it is positive.
    pub fn new(divisor: i64) -> (r: Option<Decay>)
        ensures
            divisor > 0 ==> r is Some && r->0@ == divisor,
            divisor <= 0 ==> r is None,
    {
        if divisor > 0 {
            Some(Decay { divisor })
        } else {
            None
        }
    }

    /// The divisor, which is positive.
    pub fn divisor(&self) -> (d: i64)
        ensures
            d == self@,
            d > 0,
    {
        proof {
            use_type_invariant(self);
        }
        self.divisor
    }
}

/// The age of `s` at the time `now`, in seconds. It is negative for a
/// snapshot that claims to come from the future.
pub open spec fn age(s: Snapshot, now: int) -> int {
    now - s@.created_at
}

/// True when a snapshot of age `a` lies in the band of an anchor of age `t`:
/// no older than the anchor, and younger by no more than the radius `t / d`.
/// The radius is a fraction of a second in general, so the lower bound
/// `t - t / d <= a` is stated with both sides multiplied by `d`.
pub open spec fn in_band(a: int, t: int, d: int) -> bool {
    a <= t && t * d - t <= a * d
}

/// The snapshots that an anchor of age `t` leaves alone.
pub open spec fn spared(now: int, t: int, d: int) -> spec_fn(Snapshot) -> bool {
    |s: Snapshot| !in_band(age(s, now), t, d)
}

/// The snapshots that an anchor of age `t` prunes, the anchor itself apart.
pub open spec fn doomed(now: int, t: int, d: int) -> spec_fn(Snapshot) -> bool {
    |s: Snapshot| in_band(age(s, now), t, d)
}

/// What one pass with the anchor at `idx` keeps: the anchor, and every other
/// snapshot outside its band, in their order.
pub open spec fn pass_kept(s: Seq<Snapshot>, idx: int, now: int, d: int) -> Seq<Snapshot>
    recommends
        0 <= idx < s.len(),
{
    let keep = spared(now, age(s[idx], now), d);
    s.take(idx).filter(keep).push(s[idx]) + s.skip(idx + 1).filter(keep)
}

/// What one pass with the anchor at `idx` prunes, in their order.
pub open spec fn pass_pruned(s: Seq<Snapshot>, idx: int, now: int, d: int) -> Seq<Snapshot>
    recommends
        0 <= idx < s.len(),
{
    let drop = doomed(now, age(s[idx], now), d);
    s.take(idx).filter(drop) + s.skip(idx + 1).filter(drop)
}

/// What is left of `s` once every position from `idx` on has served as the
/// anchor of a pass, each pass working on what the one before it left.
pub open spec fn sweep_from(s: Seq<Snapshot>, idx: int, now: int, d: int) -> Seq<Snapshot>
    decreases
            if idx < s.len() {
                s.len() - idx
            } else {
                0
            },
    via sweep_from_decreases
{
    if 0 <= idx < s.len() {
        sweep_from(pass_kept(s, idx, now, d), idx + 1, now, d)
    } else {
        s
    }
}

/// What those passes prune, in the order in which they prune it.
pub open spec fn swept_out_from(s: Seq<Snapshot>, idx: int, now: int, d: int) -> Seq<Snapshot>
    decreases
            if idx < s.len() {
                s.len() - idx
            } else {
                0
            },
    via swept_out_from_decreases
{
    if 0 <= idx < s.len() {
        pass_pruned(s, idx, now, d) + swept_out_from(pass_kept(s, idx, now, d), idx + 1, now, d)
    } else {
        Seq::empty()
    }
}

/// The snapshots that the whole sweep keeps.
pub open spec fn sweep(s: Seq<Snapshot>, now: int, d: int) -> Seq<Snapshot> {
    sweep_from(s, 0, now, d)
}

/// The snapshots that the whole sweep prunes.
pub open spec fn swept_out(s: Seq<Snapshot>, now: int, d: int) -> Seq<Snapshot> {
    swept_out_from(s, 0, now, d)
}

#[via_fn]
proof fn sweep_from_decreases(s: Seq<Snapshot>, idx: int, now: int, d: int) {
    if 0 <= idx < s.len() {
        lemma_pass_shrinks(s, idx, now, d);
    }
}

#[via_fn]
proof fn swept_out_from_decreases(s: Seq<Snapshot>, idx: int, now: int, d: int) {
    if 0 <= idx < s.len() {
        lemma_pass_shrinks(s, idx, now, d);
    }
}

/// A pass never lengthens the list.
pub proof fn lemma_pass_shrinks(s: Seq<Snapshot>, idx: int, now: int, d: int)
    requires
        0 <= idx < s.len(),
    ensures
        pass_kept(s, idx, now, d).len() <= s.len(),
{
    let keep = spared(now, age(s[idx], now), d);
    s.take(idx).lemma_filter_len(keep);
    s.skip(idx + 1).lemma_filter_len(keep);
}

/// Decides `in_band` for a snapshot taken at `time` and an anchor taken at
/// `anchor`, without rounding.
fn within_radius(now: i64, anchor: i64, time: i64, divisor: i64) -> (r: bool)
    requires
        divisor > 0,
    ensures
        r == in_band(now - time, now - anchor, divisor as int),
{
    let a: i128 = now as i128 - time as i128;
    let t: i128 = now as i128 - anchor as i128;
    let d: i128 = divisor as i128;
    if a > t {
        return false;
    }
    assert(-0x1_0000_0000_0000_0000 < a < 0x1_0000_0000_0000_0000);
    assert(-0x1_0000_0000_0000_0000 < t < 0x1_0000_0000_0000_0000);
    assert(0 < d < 0x8000_0000_0000_0000);
    assert(-0x8000_0000_0000_0000_0000_0000_0000_0000 < a * d
        < 0x8000_0000_0000_0000_0000_0000_0000_0000) by (nonlinear_arith)
        requires
            -0x1_0000_0000_0000_0000 < a < 0x1_0000_0000_0000_0000,
            0 < d < 0x8000_0000_0000_0000,
    ;
    assert(-0x8000_0000_0000_0000_0000_0000_0000_0000 < t * (d - 1)
        < 0x8000_0000_0000_0000_0000_0000_0000_0000) by (nonlinear_arith)
        requires
            -0x1_0000_0000_0000_0000 < t < 0x1_0000_0000_0000_0000,
            0 < d < 0x8000_0000_0000_0000,
    ;
    assert(t * (d - 1) == t * d - t) by (nonlinear_arith);
    t * (d - 1) <= a * d
}

/// Runs one pass: the anchor is `snaps[idx]`. The snapshots that the pass
/// prunes are moved to the end of `pruned`.
fn sweep_pass(
    snaps: Vec<Snapshot>,
    idx: usize,
    now: i64,
    decay: &Decay,
    pruned: &mut Vec<Snapshot>,
) -> (kept: Vec<Snapshot>)
    requires
        idx < snaps.len(),
    ensures
        kept@ == pass_kept(snaps@, idx as int, now as int, decay@),
        final(pruned)@ == old(pruned)@ + pass_pruned(snaps@, idx as int, now as int, decay@),
{
    let anchor: i64 = snaps[idx].created_at();
    let divisor: i64 = decay.divisor();
    let ghost all = snaps@;
    let ghost keep = spared(now as int, age(all[idx as int], now as int), decay@);
    let ghost drop = doomed(now as int, age(all[idx as int], now as int), decay@);
    let mut kept: Vec<Snapshot> = Vec::new();
    let mut i: usize = 0;
    for snap in it: snaps
        invariant
            i == it.index(),
            it.seq() == all,
            idx < all.len() <= usize::MAX,
            divisor == decay@,
            divisor > 0,
            anchor == all[idx as int]@.created_at,
            keep == spared(now as int, age(all[idx as int], now as int), decay@),
            drop == doomed(now as int, age(all[idx as int], now as int), decay@),
            i <= idx ==> kept@ == all.take(i as int).filter(keep),
            i <= idx ==> pruned@ == old(pruned)@ + all.take(i as int).filter(drop),
            i > idx ==> kept@ == all.take(idx as int).filter(keep).push(all[idx as int])
                + all.subrange(idx + 1, i as int).filter(keep),
            i > idx ==> pruned@ == old(pruned)@ + all.take(idx as int).filter(drop)
                + all.subrange(idx + 1, i as int).filter(drop),
    {
        proof {
            assert(snap == all[i as int]);
            if i < idx {
                assert(all.take(i + 1) =~= all.take(i as int).push(snap));
                all.take(i as int).lemma_filter_push(snap, keep);
                all.take(i as int).lemma_filter_push(snap, drop);
            } else if i > idx {
                assert(all.subrange(idx + 1, i + 1) =~= all.subrange(idx + 1, i as int).push(snap));
                all.subrange(idx + 1, i as int).lemma_filter_push(snap, keep);
                all.subrange(idx + 1, i as int).lemma_filter_push(snap, drop);
            } else {
                assert(all.subrange(idx + 1, i + 1) =~= Seq::<Snapshot>::empty());
                lemma_filter_none(Seq::<Snapshot>::empty(), keep);
                lemma_filter_none(Seq::<Snapshot>::empty(), drop);
            }
        }
        if i == idx {
            kept.push(snap);
        } else if within_radius(now, anchor, snap.created_at(), divisor) {
            pruned.push(snap);
        } else {
            kept.push(snap);
        }
        i = i + 1;
    }
    proof {
        assert(all.subrange(idx + 1, all.len() as int) =~= all.skip(idx + 1));
    }
    kept
}

/// The outcome of a sweep.
pub struct Sweep {
    /// The snapshots that stay, in their order.
    pub kept: Vec<Snapshot>,
    /// The snapshots to destroy, in the order in which the sweep met them.
    pub pruned: Vec<Snapshot>,
}

/// Sweeps `snaps` as of the time `now`: each surviving snapshot in turn,
/// from the front, is the anchor of one pass, and the pass prunes every other
/// snapshot in the anchor's band. Nothing is destroyed here: the pruned
/// snapshots are handed back for that.
pub fn collect_at(snaps: Vec<Snapshot>, now: i64, decay: &Decay) -> (r: Sweep)
    ensures
        r.kept@ == sweep(snaps@, now as int, decay@),
        r.pruned@ == swept_out(snaps@, now as int, decay@),
{
    let ghost all = snaps@;
    let mut snaps = snaps;
    let mut pruned: Vec<Snapshot> = Vec::new();
    let mut idx: usize = 0;
    while idx < snaps.len()
        invariant
            sweep_from(snaps@, idx as int, now as int, decay@) == sweep(all, now as int, decay@),
            pruned@ + swept_out_from(snaps@, idx as int, now as int, decay@) == swept_out(
                all,
                now as int,
                decay@,
            ),
        decreases
                if idx < snaps.len() {
                    snaps.len() - idx
                } else {
                    0
                },
    {
        let ghost before = snaps@;
        let ghost gone = pruned@;
        snaps = sweep_pass(snaps, idx, now, decay, &mut pruned);
        proof {
            lemma_pass_shrinks(before, idx as int, now as int, decay@);
            assert(pruned@ + swept_out_from(snaps@, idx + 1, now as int, decay@) =~= gone
                + swept_out_from(before, idx as int, now as int, decay@));
        }
        idx = idx + 1;
    }
    Sweep { kept: snaps, pruned }
}

/// Sweeps `snaps` as of the present moment, read once before the first pass.
pub fn collect(snaps: Vec<Snapshot>, decay: &Decay) -> (r: Sweep)
    ensures
        exists|now: i64|
            r.kept@ == #[trigger] sweep(snaps@, now as int, decay@) && r.pruned@ == swept_out(
                snaps@,
                now as int,
                decay@,
            ),
{
    let now: i64 = current_seconds();
    collect_at(snaps, now, decay)
}

} // verus!
