//! Destroying the pruned snapshots, one command at a time.
//!
//! The destroyer holds the snapshots that a sweep pruned. It says which
//! command to run next and takes the report of each run. The first failure
//! halts it for good: no command is asked for again, neither the one that
//! failed nor a later one.

use vstd::prelude::*;
use vstd::string::*;
use crate::command::{ExitReport, texts, destroy_arguments, destroy_command};
use crate::snapshot::{Snapshot, SnapshotView, SnapState, DestroyError, views};

verus! {

/// The snapshots of one run: those still to destroy, in the order in which
/// they go, and those destroyed so far.
pub struct Destroyer {
    pending: Vec<Snapshot>,
    destroyed: Vec<Snapshot>,
    halted: bool,
}

/// The two lists of a destroyer, and whether a failure has halted it.
pub ghost struct DestroyerView {
    pub pending: Seq<Snapshot>,
    pub destroyed: Seq<Snapshot>,
    pub halted: bool,
}

/// True when every snapshot of `s` is in the state `state`.
pub open spec fn all_in_state(s: Seq<Snapshot>, state: SnapState) -> bool {
    forall|i: int| 0 <= i < s.len() ==> (#[trigger] s[i])@.state == state
}

/// The first position of `s` that holds a snapshot on record as destroyed.
pub open spec fn is_first_deleted(s: Seq<Snapshot>, i: int) -> bool {
    &&& 0 <= i < s.len()
    &&& s[i]@.state == SnapState::Deleted
    &&& all_in_state(s.take(i), SnapState::Exists)
}

/// What the record `v` says once its snapshot is destroyed.
pub open spec fn deleted(v: SnapshotView) -> SnapshotView {
    SnapshotView { state: SnapState::Deleted, ..v }
}

impl View for Destroyer {
    type V = DestroyerView;

    closed spec fn view(&self) -> DestroyerView {
        DestroyerView {
            pending: self.pending@,
            destroyed: self.destroyed@,
            halted: self.halted,
        }
    }
}

impl Destroyer {
    /// What holds of every destroyer, from `new` on and after every `record`:
    /// the pending snapshots exist and the destroyed ones are on record as
    /// destroyed.
    pub open spec fn wf(&self) -> bool {
        &&& all_in_state(self@.pending, SnapState::Exists)
        &&& all_in_state(self@.destroyed, SnapState::Deleted)
    }

    /// Takes over the snapshots that a sweep pruned. With a limit, a list
    /// longer than the limit is refused as a whole, and so is a list that
    /// holds a snapshot on record as destroyed: in both cases nothing will be
    /// destroyed.
    pub fn new(pruned: Vec<Snapshot>, limit: Option<usize>) -> (r: Result<Destroyer, DestroyError>)
        ensures
            match r {
                Ok(d) => {
                    &&& d.wf()
                    &&& d@.pending == pruned@
                    &&& d@.destroyed == Seq::<Snapshot>::empty()
                    &&& !d@.halted
                    &&& limit is Some ==> pruned@.len() <= limit->0
                },
                Err(DestroyError::OverLimit { count, limit: most }) => limit == Some(most)
                    && count == pruned@.len() && count > most,
                Err(DestroyError::AlreadyDeleted { identifier }) => {
                    &&& limit is Some ==> pruned@.len() <= limit->0
                    &&& exists|i: int| #[trigger]
                        is_first_deleted(pruned@, i) && identifier@ == pruned@[i]@.identifier
                },
                Err(_) => false,
            },
    {
        if let Some(most) = limit {
            if pruned.len() > most {
                return Err(DestroyError::OverLimit { count: pruned.len(), limit: most });
            }
        }
        let mut i: usize = 0;
        while i < pruned.len()
            invariant
                i <= pruned@.len(),
                limit is Some ==> pruned@.len() <= limit->0,
                all_in_state(pruned@.take(i as int), SnapState::Exists),
            decreases pruned@.len() - i,
        {
            match pruned[i].state() {
                SnapState::Deleted => {
                    assert(is_first_deleted(pruned@, i as int));
                    return Err(
                        DestroyError::AlreadyDeleted {
                            identifier: pruned[i].identifier().to_owned(),
                        },
                    );
                },
                SnapState::Exists => {
                    assert forall|k: int| 0 <= k < i + 1 implies (#[trigger] pruned@.take(
                        i + 1,
                    )[k])@.state == SnapState::Exists by {
                        if k < i {
                            assert(pruned@.take(i as int)[k] == pruned@[k]);
                        }
                    }
                },
            }
            i = i + 1;
        }
        assert(pruned@.take(i as int) =~= pruned@);
        Ok(Destroyer { pending: pruned, destroyed: Vec::new(), halted: false })
    }

    /// The arguments of the command to run next: the destruction of the first
    /// pending snapshot. None when nothing is pending, and none once a
    /// failure has halted the destroyer.
    pub fn next_command(&self) -> (r: Option<Vec<String>>)
        ensures
            match r {
                Some(args) => {
                    &&& !self@.halted
                    &&& self@.pending.len() > 0
                    &&& texts(args@) == destroy_arguments(self@.pending[0]@.identifier)
                },
                None => self@.halted || self@.pending.len() == 0,
            },
    {
        if self.halted || self.pending.len() == 0 {
            None
        } else {
            Some(destroy_command(self.pending[0].identifier()))
        }
    }

    /// Takes the report of the command that `next_command` asked for. After a
    /// success the first pending snapshot stands, as destroyed, at the end of
    /// the destroyed ones. A failure is reported with the snapshot's name
    /// and halts the destroyer; the lists stay as they are. A report that
    /// comes when no command was asked for changes nothing.
    pub fn record(&mut self, report: ExitReport) -> (r: Result<(), DestroyError>)
        requires
            old(self).wf(),
        ensures
            final(self).wf(),
            match r {
                Ok(()) => {
                    &&& !old(self)@.halted
                    &&& old(self)@.pending.len() > 0
                    &&& report.is_success()
                    &&& !final(self)@.halted
                    &&& final(self)@.pending == old(self)@.pending.drop_first()
                    &&& views(final(self)@.destroyed) == views(old(self)@.destroyed).push(
                        deleted(old(self)@.pending[0]@),
                    )
                },
                Err(DestroyError::NothingPending) => {
                    &&& old(self)@.halted || old(self)@.pending.len() == 0
                    &&& final(self)@ == old(self)@
                },
                Err(DestroyError::Failed { identifier, report: failure }) => {
                    &&& !old(self)@.halted
                    &&& old(self)@.pending.len() > 0
                    &&& !report.is_success()
                    &&& final(self)@ == (DestroyerView { halted: true, ..old(self)@ })
                    &&& identifier@ == old(self)@.pending[0]@.identifier
                    &&& failure == report
                },
                Err(_) => false,
            },
    {
        if self.halted || self.pending.len() == 0 {
            return Err(DestroyError::NothingPending);
        }
        if !report.succeeded() {
            self.halted = true;
            return Err(
                DestroyError::Failed {
                    identifier: self.pending[0].identifier().to_owned(),
                    report,
                },
            );
        }
        let ghost before = self.pending@;
        let ghost gone = self.destroyed@;
        let mut snap = self.pending.remove(0);
        assert(snap == before[0]);
        assert(self.pending@ =~= before.drop_first());
        let outcome = snap.zfs_destroy(report);
        assert(outcome is Ok);
        self.destroyed.push(snap);
        proof {
            assert(views(self.destroyed@) =~= views(gone).push(deleted(before[0]@)));
            assert forall|k: int| 0 <= k < self.pending@.len() implies (
            #[trigger] self.pending@[k])@.state == SnapState::Exists by {
                assert(self.pending@[k] == before[k + 1]);
            }
        }
        Ok(())
    }

    /// Whether a failure has halted the destroyer.
    pub fn halted(&self) -> (h: bool)
        ensures
            h == self@.halted,
    {
        self.halted
    }

    /// The number of snapshots destroyed so far.
    pub fn destroyed(&self) -> (n: usize)
        ensures
            n == self@.destroyed.len(),
    {
        self.destroyed.len()
    }

    /// The number of snapshots still to destroy.
    pub fn pending(&self) -> (n: usize)
        ensures
            n == self@.pending.len(),
    {
        self.pending.len()
    }
}

} // verus!
