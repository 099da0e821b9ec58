//! The snapshot record and its lifecycle.

use vstd::prelude::*;
use crate::command::ExitReport;
use crate::stamp::{STAMP_FORMAT, stamp_seconds, parse_seconds, parse_error_text,
    lemma_stamp_format_is_calendar};

verus! {

/// Whether the snapshot still exists in the storage system.
#[derive(Clone, Copy, Debug, PartialEq, Eq, Structural)]
pub enum SnapState {
    Exists,
    Deleted,
}

/// One snapshot of a volume.
pub struct Snapshot {
    time: i64,
    snap: String,
    state: SnapState,
}

/// What a snapshot record says.
pub ghost struct SnapshotView {
    /// The snapshot's full name.
    pub identifier: Seq<char>,
    /// Creation time, in seconds since 1970-01-01T00:00:00Z.
    pub created_at: int,
    pub state: SnapState,
}

/// A timestamp that could not be read.
pub struct StampError {
    /// The name of the snapshot that carried the timestamp.
    pub identifier: String,
    /// The parser's message.
    pub cause: String,
}

/// Why a snapshot was not destroyed.
pub enum DestroyError {
    /// More snapshots are to go than one run may destroy.
    OverLimit { count: usize, limit: usize },
    /// The snapshot is on record as destroyed.
    AlreadyDeleted { identifier: String },
    /// An outcome was reported while no destruction had been asked for.
    NothingPending,
    /// The destruction was tried and failed.
    Failed { identifier: String, report: ExitReport },
}

impl View for Snapshot {
    type V = SnapshotView;

    closed spec fn view(&self) -> SnapshotView {
        SnapshotView { identifier: self.snap@, created_at: self.time as int, state: self.state }
    }
}

/// True when the snapshots stand oldest first: creation times never fall from
/// one position to the next.
pub open spec fn oldest_first(s: Seq<Snapshot>) -> bool {
    forall|i: int, j: int| 0 <= i < j < s.len() ==> s[i]@.created_at <= s[j]@.created_at
}

/// What the records of a list say, one by one.
pub open spec fn views(snaps: Seq<Snapshot>) -> Seq<SnapshotView> {
    snaps.map_values(|s: Snapshot| s@)
}

impl Snapshot {
    /// A record of an existing snapshot named `snap` that was taken at
    /// `created_at` seconds since 1970-01-01T00:00:00Z.
    pub fn at(created_at: i64, snap: String) -> (r: Snapshot)
        ensures
            r@ == (SnapshotView {
                identifier: snap@,
                created_at: created_at as int,
                state: SnapState::Exists,
            }),
    {
        Snapshot { time: created_at, snap, state: SnapState::Exists }
    }

    /// A record of the existing snapshot named `snap`, created at the time
    /// that `timestamp` spells out in the stamp layout. A timestamp that does
    /// not parse gives an error that names the snapshot.
    pub fn new(timestamp: &str, snap: String) -> (r: Result<Snapshot, StampError>)
        ensures
            match stamp_seconds(timestamp@, STAMP_FORMAT@) {
                Some(t) => r is Ok && r->Ok_0@ == (SnapshotView {
                    identifier: snap@,
                    created_at: t as int,
                    state: SnapState::Exists,
                }),
                None => r is Err && r->Err_0.identifier@ == snap@,
            },
    {
        proof {
            lemma_stamp_format_is_calendar();
        }
        match parse_seconds(timestamp, STAMP_FORMAT) {
            Ok(t) => Ok(Snapshot::at(t, snap)),
            Err(e) => Err(StampError { identifier: snap, cause: parse_error_text(e) }),
        }
    }

    /// Creation time, in seconds since 1970-01-01T00:00:00Z.
    pub fn created_at(&self) -> (t: i64)
        ensures
            t == self@.created_at,
    {
        self.time
    }

    /// The snapshot's full name.
    pub fn identifier(&self) -> (name: &str)
        ensures
            name@ == self@.identifier,
    {
        self.snap.as_str()
    }

    /// Whether the snapshot is on record as existing or as destroyed.
    pub fn state(&self) -> (s: SnapState)
        ensures
            s == self@.state,
    {
        self.state
    }

    /// Records how the destruction of this snapshot ended. A run that
    /// succeeded turns the record to `Deleted`; a run that failed leaves it
    /// as it is and is reported. A record that is `Deleted` already is never
    /// destroyed again: that is reported, whatever the run did.
    pub fn zfs_destroy(&mut self, report: ExitReport) -> (r: Result<(), DestroyError>)
        ensures
            final(self)@.identifier == old(self)@.identifier,
            final(self)@.created_at == old(self)@.created_at,
            match r {
                Ok(()) => {
                    &&& old(self)@.state == SnapState::Exists
                    &&& report.is_success()
                    &&& final(self)@.state == SnapState::Deleted
                },
                Err(DestroyError::AlreadyDeleted { identifier }) => {
                    &&& old(self)@.state == SnapState::Deleted
                    &&& *final(self) == *old(self)
                    &&& identifier@ == old(self)@.identifier
                },
                Err(DestroyError::Failed { identifier, report: failure }) => {
                    &&& old(self)@.state == SnapState::Exists
                    &&& !report.is_success()
                    &&& *final(self) == *old(self)
                    &&& identifier@ == old(self)@.identifier
                    &&& failure == report
                },
                Err(_) => false,
            },
    {
        match self.state {
            SnapState::Deleted => Err(
                DestroyError::AlreadyDeleted { identifier: self.snap.clone() },
            ),
            SnapState::Exists => {
                if report.succeeded() {
                    self.state = SnapState::Deleted;
                    Ok(())
                } else {
                    Err(DestroyError::Failed { identifier: self.snap.clone(), report })
                }
            },
        }
    }
}

} // verus!
