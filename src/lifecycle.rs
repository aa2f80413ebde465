use vstd::prelude::*;

verus! {

/// Where an intent record file lives; each state is one directory.
#[derive(Clone, Copy, Debug, PartialEq, Eq, Structural)]
pub enum IntentState {
    Inbox,
    Deferred,
    Queued,
    Failed,
    Archived,
}

/// The directory of each state, relative to the data directory.
pub open spec fn state_dir(s: IntentState) -> Seq<char> {
    match s {
        IntentState::Inbox => "intent/inbox"@,
        IntentState::Deferred => "intent/inbox/deferred"@,
        IntentState::Queued => "intent/queue"@,
        IntentState::Failed => "intent/queue/failed"@,
        IntentState::Archived => "intent/history"@,
    }
}

/// The lifecycle's edges: intake admits or defers, a queued intent is
/// archived on success or quarantined after repeated failure.
pub open spec fn allowed(from: IntentState, to: IntentState) -> bool {
    match (from, to) {
        (IntentState::Inbox, IntentState::Queued) => true,
        (IntentState::Inbox, IntentState::Deferred) => true,
        (IntentState::Queued, IntentState::Failed) => true,
        (IntentState::Queued, IntentState::Archived) => true,
        _ => false,
    }
}

/// A relocation that the lifecycle does not have.
#[derive(Clone, Copy, Debug, PartialEq, Eq, Structural)]
pub struct TransitionError {
    pub from: IntentState,
    pub to: IntentState,
}

impl IntentState {
    pub fn dir(&self) -> (r: &'static str)
        ensures
            r@ == state_dir(*self),
    {
        proof {
            reveal_strlit("intent/inbox");
            reveal_strlit("intent/inbox/deferred");
            reveal_strlit("intent/queue");
            reveal_strlit("intent/queue/failed");
            reveal_strlit("intent/history");
        }
        match self {
            IntentState::Inbox => "intent/inbox",
            IntentState::Deferred => "intent/inbox/deferred",
            IntentState::Queued => "intent/queue",
            IntentState::Failed => "intent/queue/failed",
            IntentState::Archived => "intent/history",
        }
    }
}

fn transition(from: IntentState, to: IntentState) -> (r: Result<IntentState, TransitionError>)
    ensures
        allowed(from, to) ==> r == Ok::<IntentState, TransitionError>(to),
        !allowed(from, to) ==> r == Err::<IntentState, TransitionError>(
            TransitionError { from, to },
        ),
{
    let ok = match (from, to) {
        (IntentState::Inbox, IntentState::Queued) => true,
        (IntentState::Inbox, IntentState::Deferred) => true,
        (IntentState::Queued, IntentState::Failed) => true,
        (IntentState::Queued, IntentState::Archived) => true,
        _ => false,
    };
    if ok {
        Ok(to)
    } else {
        Err(TransitionError { from, to })
    }
}

/// Inbox to queue: the intent was admitted.
pub fn promote(from: IntentState) -> (r: Result<IntentState, TransitionError>)
    ensures
        from == IntentState::Inbox ==> r == Ok::<IntentState, TransitionError>(IntentState::Queued),
        from != IntentState::Inbox ==> r is Err,
{
    transition(from, IntentState::Queued)
}

/// Inbox to deferred: the intent scored below the threshold.
pub fn defer(from: IntentState) -> (r: Result<IntentState, TransitionError>)
    ensures
        from == IntentState::Inbox ==> r == Ok::<IntentState, TransitionError>(IntentState::Deferred),
        from != IntentState::Inbox ==> r is Err,
{
    transition(from, IntentState::Deferred)
}

/// Queue to failed: processing failed too often.
pub fn quarantine(from: IntentState) -> (r: Result<IntentState, TransitionError>)
    ensures
        from == IntentState::Queued ==> r == Ok::<IntentState, TransitionError>(IntentState::Failed),
        from != IntentState::Queued ==> r is Err,
{
    transition(from, IntentState::Failed)
}

/// What archiving does with a record.
#[derive(Clone, Copy, Debug, PartialEq, Eq, Structural)]
pub enum ArchiveStep {
    /// Move the file from the queue into the history directory.
    Move,
    /// The record has no file (any more): nothing to do, and no error.
    Nothing,
}

/// Archiving a record whose file is at `location` (None: the file is gone).
pub fn archive(location: Option<IntentState>) -> (r: Result<ArchiveStep, TransitionError>)
    ensures
        r == archive_spec(location),
{
    match location {
        None => Ok(ArchiveStep::Nothing),
        Some(from) => match transition(from, IntentState::Archived) {
            Ok(_) => Ok(ArchiveStep::Move),
            Err(e) => Err(e),
        },
    }
}

pub open spec fn archive_spec(location: Option<IntentState>) -> Result<ArchiveStep, TransitionError> {
    match location {
        None => Ok(ArchiveStep::Nothing),
        Some(from) => if allowed(from, IntentState::Archived) {
            Ok(ArchiveStep::Move)
        } else {
            Err(TransitionError { from, to: IntentState::Archived })
        },
    }
}

/// The location of a record after an archive step that succeeded.
pub open spec fn after_archive(location: Option<IntentState>) -> Option<IntentState> {
    match archive_spec(location) {
        Ok(ArchiveStep::Move) => Some(IntentState::Archived),
        _ => location,
    }
}

/// Archiving is idempotent: archiving a queued record moves it once; after
/// that its file is no longer where the intent points (`None`), and
/// archiving again succeeds and moves nothing, however often it is repeated.
pub proof fn lemma_archive_idempotent()
    ensures
        archive_spec(None) == Ok::<ArchiveStep, TransitionError>(ArchiveStep::Nothing),
        after_archive(None) == None::<IntentState>,
        archive_spec(after_archive(None)) == Ok::<ArchiveStep, TransitionError>(
            ArchiveStep::Nothing,
        ),
        archive_spec(Some(IntentState::Queued)) == Ok::<ArchiveStep, TransitionError>(
            ArchiveStep::Move,
        ),
{
}

} // verus!
