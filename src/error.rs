use vstd::prelude::*;

verus! {

/// The stage at which a run stopped. Every error ends the run.
#[derive(Debug, Clone, Copy, PartialEq, Eq, Structural)]
pub enum SyncError {
    /// The source repository could not be obtained.
    CloneFailed,
    /// Listing the tags of the source repository failed.
    TagFetchFailed,
    /// A listed tag is not a name and an RFC 3339 commit time.
    MalformedTagData,
    /// The persisted record exists but is not a record of processed tags.
    StateCorrupt,
    /// Writing the record failed; the tag was not propagated.
    StatePersistFailed,
    /// Staging, committing or pushing failed after the tag was recorded: the tag
    /// is recorded but not propagated, and needs reconciling by hand.
    PropagationFailed,
}

impl SyncError {
    /// A one-line account of the error for an operator.
    pub fn message(&self) -> (r: &'static str) {
        match self {
            SyncError::CloneFailed => "could not clone the source repository",
            SyncError::TagFetchFailed => "could not list the tags of the source repository",
            SyncError::MalformedTagData => "a listed tag has no valid RFC 3339 commit time",
            SyncError::StateCorrupt => "the state file is not a valid record of processed tags",
            SyncError::StatePersistFailed => "could not write the state file",
            SyncError::PropagationFailed =>
                "the tag was recorded but staging, committing or pushing it failed; reconcile it by hand",
        }
    }
}

} // verus!
