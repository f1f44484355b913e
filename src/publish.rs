use vstd::prelude::*;
use vstd::string::*;
use crate::error::SyncError;

verus! {

/// The start of the message of the commit that propagates a tag.
pub open spec fn commit_prefix() -> Seq<char> {
    seq!['A', 'd', 'd', ' ', 't', 'a', 'g', ' ']
}

/// The message of the commit that propagates the tag of this name.
pub fn commit_message(name: &str) -> (r: String)
    ensures
        r@ == commit_prefix() + name@,
{
    let prefix = String::from_str("Add tag ");
    proof {
        reveal_strlit("Add tag ");
    }
    assert(prefix@ =~= commit_prefix());
    prefix.concat(name)
}

/// The outside work that publishes one newly recorded tag, in the order it is
/// done: the record is persisted before any change is propagated.
#[derive(Debug, Clone, Copy, PartialEq, Eq, Structural)]
pub enum PublishStep {
    /// Write the record, with the tag appended, to durable storage.
    Persist,
    /// Stage the modified tracked files of the destination working copy.
    Stage,
    /// Commit, with the message of `commit_message`.
    Commit,
    /// Push the commit to the configured remote.
    Push,
}

/// The step after `step`, or none once the tag is published.
pub open spec fn step_after(step: PublishStep) -> Option<PublishStep> {
    match step {
        PublishStep::Persist => Some(PublishStep::Stage),
        PublishStep::Stage => Some(PublishStep::Commit),
        PublishStep::Commit => Some(PublishStep::Push),
        PublishStep::Push => None,
    }
}

/// The error that ends a run where `step` fails: a failed write of the record,
/// or a failed propagation of a tag that is already recorded.
pub open spec fn failure_of(step: PublishStep) -> SyncError {
    match step {
        PublishStep::Persist => SyncError::StatePersistFailed,
        _ => SyncError::PropagationFailed,
    }
}

impl PublishStep {
    /// The step that publishing a tag starts with.
    pub fn first() -> (r: PublishStep)
        ensures
            r == PublishStep::Persist,
    {
        PublishStep::Persist
    }

    /// What follows this step, given whether it succeeded: the next step, none
    /// once the tag is published, or the error that ends the run.
    pub fn after(self, succeeded: bool) -> (r: Result<Option<PublishStep>, SyncError>)
        ensures
            succeeded ==> r == Ok::<Option<PublishStep>, SyncError>(step_after(self)),
            !succeeded ==> r == Err::<Option<PublishStep>, SyncError>(failure_of(self)),
    {
        if !succeeded {
            return match self {
                PublishStep::Persist => Err(SyncError::StatePersistFailed),
                _ => Err(SyncError::PropagationFailed),
            };
        }
        match self {
            PublishStep::Persist => Ok(Some(PublishStep::Stage)),
            PublishStep::Stage => Ok(Some(PublishStep::Commit)),
            PublishStep::Commit => Ok(Some(PublishStep::Push)),
            PublishStep::Push => Ok(None),
        }
    }
}

} // verus!
