//! Deciding which files are worth reading again.
use vstd::prelude::*;

verus! {

/// How far back, in milliseconds, a file counts as modified since a point in time.
pub const SLACK_MILLIS: i64 = 1_000;

/// When a file was last modified, as far as the file system tells.
#[derive(Clone, Copy, Debug, PartialEq, Eq, Structural)]
pub enum ModifiedTime {
    /// The file, or its modification time, cannot be read.
    Unknown,
    /// Before the Unix epoch.
    BeforeEpoch,
    /// This many milliseconds after the Unix epoch.
    Millis(u128),
}

/// Whether a file is to be processed: always without a point in time to compare with or a
/// modification time after the epoch, and otherwise if it was modified no earlier than
/// [`SLACK_MILLIS`] before that point.
pub open spec fn modified_since(modified: ModifiedTime, since_ts: Option<i64>) -> bool {
    match (since_ts, modified) {
        (Some(ts), ModifiedTime::Millis(millis)) => millis >= ts - SLACK_MILLIS,
        _ => true,
    }
}

/// Checks if a file was modified since the given timestamp, in milliseconds.
/// Returns true if the file should be processed (modified since the timestamp, or no
/// timestamp given).
#[must_use]
pub fn file_modified_since(modified: ModifiedTime, since_ts: Option<i64>) -> (r: bool)
    ensures
        r == modified_since(modified, since_ts),
        r == !(modified is Millis && since_ts is Some && modified->Millis_0 + 1000 < since_ts->0),
{
    match (since_ts, modified) {
        (Some(ts), ModifiedTime::Millis(millis)) => {
            // Both sides are kept within `i64`.
            let threshold: i64 = if ts < i64::MIN + SLACK_MILLIS {
                i64::MIN
            } else {
                ts - SLACK_MILLIS
            };
            let at: i64 = if millis > i64::MAX as u128 {
                i64::MAX
            } else {
                millis as i64
            };
            at >= threshold
        },
        _ => true,
    }
}

/// A file that is processed stays so when it is modified later.
pub proof fn law_later_modification_is_kept(earlier: u128, later: u128, since_ts: Option<i64>)
    requires
        earlier <= later,
        modified_since(ModifiedTime::Millis(earlier), since_ts),
    ensures
        modified_since(ModifiedTime::Millis(later), since_ts),
{
}

/// A file that is processed is also processed for an earlier point in time.
pub proof fn law_earlier_point_keeps_more(modified: ModifiedTime, earlier: i64, later: i64)
    requires
        earlier <= later,
        modified_since(modified, Some(later)),
    ensures
        modified_since(modified, Some(earlier)),
{
}

/// A file modified at the given point in time, or up to a second before it, is processed.
pub proof fn law_modification_at_the_point_is_kept(millis: u128, since_ts: i64)
    requires
        since_ts - 1000 <= millis,
    ensures
        modified_since(ModifiedTime::Millis(millis), Some(since_ts)),
{
}

/// A file is passed over only when its modification time is known and lies more than a
/// second before the given point in time.
pub proof fn law_only_older_files_are_passed_over(modified: ModifiedTime, since_ts: Option<i64>)
    requires
        !modified_since(modified, since_ts),
    ensures
        since_ts is Some,
        modified is Millis,
        modified->Millis_0 + 1000 < since_ts->0,
{
}

/// A file whose modification time is known and lies more than a second before the given point
/// in time is passed over, whatever the two times are.
pub proof fn law_older_files_are_passed_over(millis: u128, since_ts: i64)
    requires
        millis + 1000 < since_ts,
    ensures
        !modified_since(ModifiedTime::Millis(millis), Some(since_ts)),
{
}

/// Only the distance between the two times counts: moving both by the same amount changes
/// nothing.
pub proof fn law_only_the_distance_counts(millis: u128, since_ts: i64, other: u128, other_ts: i64)
    requires
        millis - since_ts == other - other_ts,
    ensures
        modified_since(ModifiedTime::Millis(millis), Some(since_ts)) == modified_since(
            ModifiedTime::Millis(other),
            Some(other_ts),
        ),
{
}

/// Without a point in time to compare with, or without a modification time after the epoch,
/// every file is processed.
pub proof fn law_unknown_times_are_kept(modified: ModifiedTime, since_ts: Option<i64>)
    requires
        since_ts is None || modified is Unknown || modified is BeforeEpoch,
    ensures
        modified_since(modified, since_ts),
{
}

}
