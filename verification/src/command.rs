//! The two commands that the storage system is asked to run, and what their
//! runs report back.

use vstd::prelude::*;
use vstd::string::*;

verus! {

/// The program that lists and destroys snapshots.
pub const ZFS: &'static str = "/sbin/zfs";

/// How a run of the program ended.
#[derive(Clone, Copy, Debug, PartialEq, Eq, Structural)]
pub enum ExitReport {
    /// The program could not be started.
    NotStarted,
    /// The program was started and did not come to an exit of its own: it was
    /// killed, or its end could not be awaited.
    Abnormal,
    /// The program ran to its end and left this exit code.
    Exited(i32),
}

impl ExitReport {
    /// True for a run that ended with the exit code zero, and for no other.
    pub open spec fn is_success(self) -> bool {
        self == ExitReport::Exited(0)
    }

    /// Whether the run did what it was asked to do.
    pub fn succeeded(&self) -> (r: bool)
        ensures
            r == self.is_success(),
    {
        match self {
            ExitReport::Exited(code) => *code == 0,
            _ => false,
        }
    }
}

/// The arguments that make the program list the snapshots under `volume`,
/// those of the volumes below it included.
pub open spec fn list_arguments(volume: Seq<char>) -> Seq<Seq<char>> {
    seq!["list"@, "-r"@, "-t"@, "snapshot"@, volume]
}

/// The arguments that make the program destroy the snapshot `identifier`.
pub open spec fn destroy_arguments(identifier: Seq<char>) -> Seq<Seq<char>> {
    seq!["destroy"@, identifier]
}

/// The texts of a list of strings.
pub open spec fn texts(lines: Seq<String>) -> Seq<Seq<char>> {
    lines.map_values(|l: String| l@)
}

/// The arguments of the listing of `volume`.
pub fn list_command(volume: &str) -> (args: Vec<String>)
    ensures
        texts(args@) == list_arguments(volume@),
{
    let mut args: Vec<String> = Vec::new();
    args.push("list".to_owned());
    args.push("-r".to_owned());
    args.push("-t".to_owned());
    args.push("snapshot".to_owned());
    args.push(volume.to_owned());
    assert(texts(args@) =~= list_arguments(volume@));
    args
}

/// The arguments of the destruction of `identifier`.
pub fn destroy_command(identifier: &str) -> (args: Vec<String>)
    ensures
        texts(args@) == destroy_arguments(identifier@),
{
    let mut args: Vec<String> = Vec::new();
    args.push("destroy".to_owned());
    args.push(identifier.to_owned());
    assert(texts(args@) =~= destroy_arguments(identifier@));
    args
}

} // verus!
