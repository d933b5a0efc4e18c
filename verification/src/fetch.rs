use vstd::prelude::*;
use crate::media::FetchError;
use crate::naming::stem_of;
use crate::naming::str_to_chars;
use crate::naming::chars_to_string;

verus! {

// ---------------------------------------------------------------------------
// The atomic-write fetch protocol
// ---------------------------------------------------------------------------
//
// Fetching one asset is a fixed sequence of fallible steps: send the GET,
// create a sibling temporary file, write the body, sync it durably, and
// only then rename it onto the destination. The decisions live here as a
// verified state machine; the caller performs each action and reports its
// outcome as an event.

/// Where a single-asset fetch stands.
#[derive(Debug, Clone, Copy, PartialEq, Eq, Structural)]
pub enum FetchPhase {
    Start,
    Responded,
    TempCreated,
    BodyWritten,
    Synced,
    Done,
    Failed(FetchError),
}

/// What the caller must do next.
#[derive(Debug, Clone, Copy, PartialEq, Eq, Structural)]
pub enum FetchAction {
    SendRequest,
    CreateTemp,
    WriteBody,
    SyncTemp,
    RenameTemp,
    Stop,
}

/// What the caller reports back.
#[derive(Debug, Clone, Copy, PartialEq, Eq, Structural)]
pub enum FetchEvent {
    RequestOk(u16),
    RequestErr,
    StepOk,
    StepErr,
}

/// An HTTP status that counts as success: the 2xx range; anything else
/// fails the fetch with that status.
pub open spec fn is_http_success(code: u16) -> bool {
    200 <= code < 300
}

pub fn http_success(code: u16) -> (r: bool)
    ensures
        r == is_http_success(code),
{
    200 <= code && code < 300
}

/// The action owed in each phase. The rename onto the destination is
/// issued only once the temporary file is durably synced.
pub open spec fn spec_next_action(p: FetchPhase) -> FetchAction {
    match p {
        FetchPhase::Start => FetchAction::SendRequest,
        FetchPhase::Responded => FetchAction::CreateTemp,
        FetchPhase::TempCreated => FetchAction::WriteBody,
        FetchPhase::BodyWritten => FetchAction::SyncTemp,
        FetchPhase::Synced => FetchAction::RenameTemp,
        FetchPhase::Done => FetchAction::Stop,
        FetchPhase::Failed(_) => FetchAction::Stop,
    }
}

/// The next phase after an event. A failure is absorbing; an event that
/// does not fit the phase changes nothing.
pub open spec fn spec_step(p: FetchPhase, e: FetchEvent) -> FetchPhase {
    match p {
        FetchPhase::Start => match e {
            FetchEvent::RequestOk(code) => if is_http_success(code) {
                FetchPhase::Responded
            } else {
                FetchPhase::Failed(FetchError::HttpStatus(code))
            },
            FetchEvent::RequestErr => FetchPhase::Failed(FetchError::TransportFailure),
            _ => p,
        },
        FetchPhase::Responded => match e {
            FetchEvent::StepOk => FetchPhase::TempCreated,
            FetchEvent::StepErr => FetchPhase::Failed(FetchError::IoFailure),
            _ => p,
        },
        FetchPhase::TempCreated => match e {
            FetchEvent::StepOk => FetchPhase::BodyWritten,
            FetchEvent::StepErr => FetchPhase::Failed(FetchError::IoFailure),
            _ => p,
        },
        FetchPhase::BodyWritten => match e {
            FetchEvent::StepOk => FetchPhase::Synced,
            FetchEvent::StepErr => FetchPhase::Failed(FetchError::IoFailure),
            _ => p,
        },
        FetchPhase::Synced => match e {
            FetchEvent::StepOk => FetchPhase::Done,
            FetchEvent::StepErr => FetchPhase::Failed(FetchError::IoFailure),
            _ => p,
        },
        FetchPhase::Done => p,
        FetchPhase::Failed(_) => p,
    }
}

pub fn next_action(p: &FetchPhase) -> (r: FetchAction)
    ensures
        r == spec_next_action(*p),
{
    match p {
        FetchPhase::Start => FetchAction::SendRequest,
        FetchPhase::Responded => FetchAction::CreateTemp,
        FetchPhase::TempCreated => FetchAction::WriteBody,
        FetchPhase::BodyWritten => FetchAction::SyncTemp,
        FetchPhase::Synced => FetchAction::RenameTemp,
        FetchPhase::Done => FetchAction::Stop,
        FetchPhase::Failed(_) => FetchAction::Stop,
    }
}

pub fn step_fetch(p: &FetchPhase, e: &FetchEvent) -> (r: FetchPhase)
    ensures
        r == spec_step(*p, *e),
{
    match p {
        FetchPhase::Start => match e {
            FetchEvent::RequestOk(code) => if http_success(*code) {
                FetchPhase::Responded
            } else {
                FetchPhase::Failed(FetchError::HttpStatus(*code))
            },
            FetchEvent::RequestErr => FetchPhase::Failed(FetchError::TransportFailure),
            _ => *p,
        },
        FetchPhase::Responded => match e {
            FetchEvent::StepOk => FetchPhase::TempCreated,
            FetchEvent::StepErr => FetchPhase::Failed(FetchError::IoFailure),
            _ => *p,
        },
        FetchPhase::TempCreated => match e {
            FetchEvent::StepOk => FetchPhase::BodyWritten,
            FetchEvent::StepErr => FetchPhase::Failed(FetchError::IoFailure),
            _ => *p,
        },
        FetchPhase::BodyWritten => match e {
            FetchEvent::StepOk => FetchPhase::Synced,
            FetchEvent::StepErr => FetchPhase::Failed(FetchError::IoFailure),
            _ => *p,
        },
        FetchPhase::Synced => match e {
            FetchEvent::StepOk => FetchPhase::Done,
            FetchEvent::StepErr => FetchPhase::Failed(FetchError::IoFailure),
            _ => *p,
        },
        FetchPhase::Done => *p,
        FetchPhase::Failed(err) => FetchPhase::Failed(*err),
    }
}

/// The phase a run of events reaches, starting fresh.
pub open spec fn run_phase(events: Seq<FetchEvent>) -> FetchPhase
    decreases events.len(),
{
    if events.len() == 0 {
        FetchPhase::Start
    } else {
        spec_step(run_phase(events.drop_last()), events.last())
    }
}

/// Whether a run placed a file at the destination: only the successful
/// rename of the synced temporary file does.
pub open spec fn placed_file(events: Seq<FetchEvent>) -> bool
    decreases events.len(),
{
    if events.len() == 0 {
        false
    } else {
        placed_file(events.drop_last()) || (run_phase(events.drop_last()) is Synced
            && events.last() is StepOk)
    }
}

/// The atomic-write law: a run places a file at the destination exactly
/// when it finishes the whole protocol. A fetch interrupted at any point
/// — between the temporary file's creation and the rename included —
/// leaves nothing at the destination path.
pub proof fn lemma_atomic_write(events: Seq<FetchEvent>)
    ensures
        placed_file(events) <==> run_phase(events) is Done,
    decreases events.len(),
{
    if events.len() > 0 {
        lemma_atomic_write(events.drop_last());
    }
}

/// The sibling temporary filename the fetch writes before the rename:
/// the destination name with its extension replaced by `tmp`.
pub fn temp_filename(name: &str) -> (r: String)
    ensures
        r@ == stem_of(name@) + seq!['.', 't', 'm', 'p'],
{
    let chars = str_to_chars(name);
    let stem = crate::naming::stem_chars(&chars);
    let mut v = stem;
    v.push('.');
    v.push('t');
    v.push('m');
    v.push('p');
    proof {
        assert(v@ =~= stem_of(name@) + seq!['.', 't', 'm', 'p']);
    }
    chars_to_string(&v)
}

} // verus!
