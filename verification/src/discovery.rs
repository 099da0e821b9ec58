//! Finding the snapshots of one volume in a listing.

use vstd::prelude::*;
use vstd::string::*;
use vstd::utf8::*;
use crate::command::{ExitReport, texts};
use crate::order::{sort_oldest_first, taken_at, view_taken_at, lemma_views_filter,
    lemma_views_oldest_first, lemma_order_is_unique};
use crate::pattern::{STAMP_PATTERN, pattern_compiles, find_first, pattern_error_text,
    first_token_bytes, first_token, names_snapshot, stamp_of, attribute,
    lemma_attribution_is_exact};
use crate::snapshot::{Snapshot, SnapshotView, SnapState, StampError, oldest_first, views};
use crate::stamp::{STAMP_FORMAT, stamp_seconds};

verus! {

/// What one line of a listing is to a volume.
pub ghost enum Entry {
    /// Not a snapshot of the volume: the line is passed over.
    Skipped,
    /// A snapshot of the volume.
    Found(SnapshotView),
    /// A snapshot of the volume, here by its name, whose timestamp does not
    /// parse.
    Unreadable(Seq<char>),
}

/// What the line `line` is to the volume `volume`. The entry's name is the
/// line's first token. It names a snapshot of the volume when it is the
/// volume's path with a timestamp suffix behind it, and nothing else; the
/// timestamp must then parse in the stamp layout.
pub open spec fn entry(volume: Seq<char>, line: Seq<char>) -> Entry {
    let token = first_token_bytes(encode_utf8(line));
    let name = decode_utf8(token);
    if names_snapshot(encode_utf8(volume), token) {
        match stamp_seconds(decode_utf8(stamp_of(encode_utf8(volume), token)), STAMP_FORMAT@) {
            Some(t) => Entry::Found(
                SnapshotView { identifier: name, created_at: t as int, state: SnapState::Exists },
            ),
            None => Entry::Unreadable(name),
        }
    } else {
        Entry::Skipped
    }
}

/// The snapshot that a line yields, if it yields one.
pub open spec fn pick(volume: Seq<char>) -> spec_fn(Seq<char>) -> Option<SnapshotView> {
    |line: Seq<char>|
        match entry(volume, line) {
            Entry::Found(v) => Some(v),
            _ => None,
        }
}

/// The snapshots of `volume` in `lines`, in the order of the lines.
pub open spec fn found(volume: Seq<char>, lines: Seq<Seq<char>>) -> Seq<SnapshotView> {
    lines.filter_map(pick(volume))
}

/// True when line `i` is the first line with a timestamp that does not
/// parse.
pub open spec fn is_first_fault(volume: Seq<char>, lines: Seq<Seq<char>>, i: int) -> bool {
    &&& 0 <= i < lines.len()
    &&& entry(volume, lines[i]) is Unreadable
    &&& forall|k: int| 0 <= k < i ==> !(entry(volume, #[trigger] lines[k]) is Unreadable)
}

/// No line names a snapshot of two volumes: the volume's path is all of the
/// name but its last fourteen bytes, so the path of a volume above or below
/// it, or beside it, does not do.
pub proof fn lemma_entry_has_one_volume(first: Seq<char>, second: Seq<char>, line: Seq<char>)
    requires
        !(entry(first, line) is Skipped),
        !(entry(second, line) is Skipped),
    ensures
        first == second,
{
    let token = first_token_bytes(encode_utf8(line));
    assert(encode_utf8(first) == token.subrange(0, token.len() - 14));
    assert(encode_utf8(second) == token.subrange(0, token.len() - 14));
    encode_utf8_decode_utf8(first);
    encode_utf8_decode_utf8(second);
}

/// Two lists that both answer to a listing say the same: the order of
/// creation and the order of the lines within each second leave no choice.
pub proof fn lemma_listing_is_settled(a: Seq<Snapshot>, b: Seq<Snapshot>, found: Seq<SnapshotView>)
    requires
        oldest_first(a),
        oldest_first(b),
        forall|t: int| #[trigger]
            views(a).filter(view_taken_at(t)) == found.filter(view_taken_at(t)),
        forall|t: int| #[trigger]
            views(b).filter(view_taken_at(t)) == found.filter(view_taken_at(t)),
    ensures
        views(a) == views(b),
{
    lemma_views_oldest_first(a);
    lemma_views_oldest_first(b);
    lemma_order_is_unique(views(a), views(b));
}

/// Why a listing gave no snapshot list.
pub enum DiscoveryError {
    /// The listing itself failed; its lines are not looked at.
    Listing(ExitReport),
    /// The timestamp pattern was not accepted by the matcher.
    Pattern { cause: String },
    /// A snapshot of the volume whose timestamp does not parse.
    Timestamp(StampError),
}

/// Reads one line of a listing of `volume`.
pub fn read_entry(volume: &str, line: &str) -> (r: Result<Option<Snapshot>, DiscoveryError>)
    ensures
        match r {
            Ok(None) => pattern_compiles(STAMP_PATTERN@) && entry(volume@, line@) is Skipped,
            Ok(Some(s)) => pattern_compiles(STAMP_PATTERN@) && entry(volume@, line@)
                == Entry::Found(s@),
            Err(DiscoveryError::Listing(_)) => false,
            Err(DiscoveryError::Pattern { .. }) => !pattern_compiles(STAMP_PATTERN@),
            Err(DiscoveryError::Timestamp(e)) => pattern_compiles(STAMP_PATTERN@) && entry(
                volume@,
                line@,
            ) == Entry::Unreadable(e.identifier@),
        },
{
    let token = first_token(line);
    proof {
        encode_utf8_decode_utf8(token@);
        lemma_attribution_is_exact(volume.spec_bytes(), token.spec_bytes());
    }
    let span = match find_first(STAMP_PATTERN, token) {
        Ok(span) => span,
        Err(e) => {
            return Err(DiscoveryError::Pattern { cause: pattern_error_text(e) });
        },
    };
    match attribute(volume, token, span) {
        None => Ok(None),
        Some(stamp) => {
            proof {
                encode_utf8_decode_utf8(stamp@);
            }
            match Snapshot::new(stamp, token.to_owned()) {
                Ok(s) => Ok(Some(s)),
                Err(e) => Err(DiscoveryError::Timestamp(e)),
            }
        },
    }
}

/// The snapshots of `volume` that the listing holds, oldest first.
///
/// `lines` are the lines that the listing printed and `report` says how it
/// ended. A listing that did not succeed gives no list, whatever it printed.
/// Each line whose first token is the volume's path with a timestamp suffix
/// behind it, and nothing else, gives one record; every other line is passed
/// over. A timestamp that does not parse makes the whole listing unusable:
/// the first such line is reported.
pub fn list_of_snaps(volume: &str, lines: &Vec<String>, report: ExitReport) -> (r: Result<
    Vec<Snapshot>,
    DiscoveryError,
>)
    ensures
        match r {
            Ok(snaps) => {
                &&& report.is_success()
                &&& pattern_compiles(STAMP_PATTERN@)
                &&& forall|i: int|
                    0 <= i < lines@.len() ==> !(entry(volume@, #[trigger] texts(lines@)[i])
                        is Unreadable)
                &&& oldest_first(snaps@)
                &&& forall|t: int| #[trigger]
                    views(snaps@).filter(view_taken_at(t)) == found(volume@, texts(lines@)).filter(
                        view_taken_at(t),
                    )
                &&& views(snaps@).to_multiset() == found(volume@, texts(lines@)).to_multiset()
                &&& snaps@.len() == found(volume@, texts(lines@)).len()
            },
            Err(DiscoveryError::Listing(failure)) => !report.is_success() && failure == report,
            Err(DiscoveryError::Pattern { .. }) => report.is_success() && !pattern_compiles(
                STAMP_PATTERN@,
            ),
            Err(DiscoveryError::Timestamp(e)) => {
                &&& report.is_success()
                &&& pattern_compiles(STAMP_PATTERN@)
                &&& exists|i: int| #[trigger]
                    is_first_fault(volume@, texts(lines@), i) && entry(volume@, texts(lines@)[i])
                        == Entry::Unreadable(e.identifier@)
            },
        },
{
    if !report.succeeded() {
        return Err(DiscoveryError::Listing(report));
    }
    if let Err(e) = find_first(STAMP_PATTERN, "") {
        return Err(DiscoveryError::Pattern { cause: pattern_error_text(e) });
    }
    let ghost all = texts(lines@);
    let mut snaps: Vec<Snapshot> = Vec::new();
    let mut i: usize = 0;
    while i < lines.len()
        invariant
            i <= lines@.len(),
            all == texts(lines@),
            report.is_success(),
            pattern_compiles(STAMP_PATTERN@),
            views(snaps@) == found(volume@, all.take(i as int)),
            forall|k: int| 0 <= k < i ==> !(entry(volume@, #[trigger] all[k]) is Unreadable),
        decreases lines@.len() - i,
    {
        let outcome = read_entry(volume, lines[i].as_str());
        proof {
            assert(all[i as int] == lines@[i as int]@);
            all.lemma_filter_map_take_succ(pick(volume@), i as int);
        }
        match outcome {
            Ok(None) => {
                assert(found(volume@, all.take(i + 1)) =~= found(volume@, all.take(i as int)));
            },
            Ok(Some(s)) => {
                let ghost before = snaps@;
                snaps.push(s);
                assert(views(snaps@) =~= views(before) + seq![s@]);
            },
            Err(e) => {
                assert(is_first_fault(volume@, all, i as int));
                return Err(e);
            },
        }
        i = i + 1;
    }
    let ghost gathered = snaps@;
    let sorted = sort_oldest_first(snaps);
    proof {
        assert(all.take(i as int) =~= all);
        assert forall|t: int| #[trigger]
            views(sorted@).filter(view_taken_at(t)) == found(volume@, all).filter(
                view_taken_at(t),
            ) by {
            lemma_views_filter(sorted@, t);
            lemma_views_filter(gathered, t);
            assert(sorted@.filter(taken_at(t)) == gathered.filter(taken_at(t)));
        }
    }
    Ok(sorted)
}

} // verus!
