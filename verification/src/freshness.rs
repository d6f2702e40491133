//! The configuration freshness gate: from the state of the previously
//! written artifact and a maximum age, decide whether peer re-acquisition
//! is needed at all.

use vstd::prelude::*;

verus! {

/// What the filesystem says about the configuration artifact.
#[derive(Clone, Copy, Debug, PartialEq, Eq, Structural)]
pub enum ArtifactState {
    /// No artifact exists at the path.
    Missing,
    /// The artifact exists but its metadata could not be read, or the path
    /// is not a regular file.
    Unreadable,
    /// The artifact is a regular file last modified at this time
    /// (seconds since an arbitrary fixed epoch).
    ModifiedAt(u64),
}

#[derive(Clone, Copy, Debug, PartialEq, Eq, Structural)]
pub enum Freshness {
    Fresh,
    Stale,
}

/// Age of an artifact modified at `mtime`, observed at `now`. A
/// modification time in the future is not an error: the age is zero.
pub open spec fn spec_age(now: u64, mtime: u64) -> nat {
    if now >= mtime {
        (now - mtime) as nat
    } else {
        0
    }
}

/// `Stale` when the artifact is missing, unreadable, or strictly older
/// than `max_age`; `Fresh` otherwise.
pub open spec fn spec_freshness(state: ArtifactState, now: u64, max_age: u64) -> Freshness {
    match state {
        ArtifactState::Missing => Freshness::Stale,
        ArtifactState::Unreadable => Freshness::Stale,
        ArtifactState::ModifiedAt(mtime) => if spec_age(now, mtime) <= max_age {
            Freshness::Fresh
        } else {
            Freshness::Stale
        },
    }
}

/// Decide whether the artifact is fresh enough to skip peer acquisition.
pub fn check_freshness(state: ArtifactState, now: u64, max_age: u64) -> (r: Freshness)
    ensures
        r == spec_freshness(state, now, max_age),
{
    match state {
        ArtifactState::Missing => Freshness::Stale,
        ArtifactState::Unreadable => Freshness::Stale,
        ArtifactState::ModifiedAt(mtime) => {
            let age: u64 = if now >= mtime {
                now - mtime
            } else {
                0
            };
            if age <= max_age {
                Freshness::Fresh
            } else {
                Freshness::Stale
            }
        }
    }
}

} // verus!
