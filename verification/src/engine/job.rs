//! Job state shared between a scan worker and its controllers.
//!
//! The state lives in one `AtomicU8` so that pause and cancel requests cost a
//! single store; the codes below name the states.

use crate::error::Error;
use crate::types::JobState;
use std::sync::atomic::{AtomicU8, Ordering};
use std::sync::Arc;
use vstd::prelude::*;

verus! {

const S_QUEUED: u8 = 0;
const S_RUNNING: u8 = 1;
const S_PAUSED: u8 = 2;
const S_FINISHED: u8 = 3;
const S_FAILED: u8 = 4;
const S_CANCELLED: u8 = 5;

/// The state a stored code stands for; an unknown code reads as `Failed`.
pub open spec fn spec_atomic_to_state(v: u8) -> JobState {
    if v == 0 {
        JobState::Queued
    } else if v == 1 {
        JobState::Running
    } else if v == 2 {
        JobState::Paused
    } else if v == 3 {
        JobState::Finished
    } else if v == 5 {
        JobState::Cancelled
    } else {
        JobState::Failed
    }
}

/// The code stored for each state.
pub open spec fn spec_state_to_atomic(s: JobState) -> u8 {
    match s {
        JobState::Queued => 0,
        JobState::Running => 1,
        JobState::Paused => 2,
        JobState::Finished => 3,
        JobState::Failed => 4,
        JobState::Cancelled => 5,
    }
}

/// Decode a stored state code.
pub fn atomic_to_state(v: u8) -> (s: JobState)
    ensures
        s == spec_atomic_to_state(v),
{
    match v {
        S_QUEUED => JobState::Queued,
        S_RUNNING => JobState::Running,
        S_PAUSED => JobState::Paused,
        S_FINISHED => JobState::Finished,
        S_FAILED => JobState::Failed,
        S_CANCELLED => JobState::Cancelled,
        _ => JobState::Failed,
    }
}

/// Encode a state as its stored code.
pub fn state_to_atomic(s: JobState) -> (v: u8)
    ensures
        v == spec_state_to_atomic(s),
        v <= 5,
{
    match s {
        JobState::Queued => S_QUEUED,
        JobState::Running => S_RUNNING,
        JobState::Paused => S_PAUSED,
        JobState::Finished => S_FINISHED,
        JobState::Failed => S_FAILED,
        JobState::Cancelled => S_CANCELLED,
    }
}

/// Whether a stored code means "paused".
pub open spec fn code_is_paused(v: u8) -> bool {
    v == 2
}

/// Whether a stored code tells the worker to stop (cancelled or failed).
pub open spec fn code_stops(v: u8) -> bool {
    v == 5 || v == 4
}

/// Storing a state and reading the code back gives the same state.
pub proof fn law_state_code_round_trip(s: JobState)
    ensures
        spec_atomic_to_state(spec_state_to_atomic(s)) == s,
{
}

/// Every code that a state is stored as decodes back to itself, and the
/// pause and stop tests on a stored code agree with the state it stands for.
pub proof fn law_code_state_round_trip(v: u8)
    requires
        v <= 5,
    ensures
        spec_state_to_atomic(spec_atomic_to_state(v)) == v,
        code_is_paused(v) <==> spec_atomic_to_state(v) == JobState::Paused,
        code_stops(v) <==> (spec_atomic_to_state(v) == JobState::Cancelled || spec_atomic_to_state(v)
            == JobState::Failed),
{
}

/// Shared state for a single scan job. Clones share the state.
#[derive(Debug, Clone)]
pub struct JobControl {
    state: Arc<AtomicU8>,
}

impl JobControl {
    /// A control in state `Queued`.
    pub fn new() -> Self {
        JobControl { state: Arc::new(AtomicU8::new(S_QUEUED)) }
    }

    /// Current state (lock-free). Another holder may change it at any time,
    /// so nothing is promised of the value read.
    pub fn state(&self) -> JobState {
        atomic_to_state(self.state.load(Ordering::Acquire))
    }

    /// Set the state (idempotent).
    pub fn set_state(&self, s: JobState) {
        self.state.store(state_to_atomic(s), Ordering::Release);
    }

    /// Whether the job is paused; the worker checks this in its hot path.
    pub fn is_paused(&self) -> bool {
        self.state.load(Ordering::Acquire) == S_PAUSED
    }

    /// Whether the job was cancelled or failed; the worker should exit.
    pub fn should_stop(&self) -> bool {
        let s: u8 = self.state.load(Ordering::Acquire);
        s == S_CANCELLED || s == S_FAILED
    }
}

/// A request made to a running job.
#[derive(Debug, Clone, Copy, PartialEq, Eq, Structural)]
pub enum JobRequest {
    Pause,
    Resume,
    Cancel,
}

/// The state a job moves to on a request: only a running job pauses, only a
/// paused job resumes, and any job can be cancelled.
pub open spec fn spec_next_state(cur: JobState, req: JobRequest) -> JobState {
    match req {
        JobRequest::Pause => if cur == JobState::Running {
            JobState::Paused
        } else {
            cur
        },
        JobRequest::Resume => if cur == JobState::Paused {
            JobState::Running
        } else {
            cur
        },
        JobRequest::Cancel => JobState::Cancelled,
    }
}

/// The state a job moves to when `req` arrives in state `cur`.
pub fn next_state(cur: JobState, req: JobRequest) -> (s: JobState)
    ensures
        s == spec_next_state(cur, req),
{
    match req {
        JobRequest::Pause => if cur == JobState::Running {
            JobState::Paused
        } else {
            cur
        },
        JobRequest::Resume => if cur == JobState::Paused {
            JobState::Running
        } else {
            cur
        },
        JobRequest::Cancel => JobState::Cancelled,
    }
}

/// Pausing a running job and resuming it puts it back to running; a request
/// to pause or resume a job that is neither running nor paused changes
/// nothing, and a cancelled job stays cancelled whatever is asked of it.
pub proof fn law_pause_resume(cur: JobState, req: JobRequest)
    ensures
        spec_next_state(spec_next_state(JobState::Running, JobRequest::Pause), JobRequest::Resume)
            == JobState::Running,
        cur != JobState::Running && cur != JobState::Paused && req != JobRequest::Cancel ==> spec_next_state(
            cur,
            req,
        ) == cur,
        cur == JobState::Cancelled ==> spec_next_state(cur, req) == JobState::Cancelled,
{
}

/// The state a job settles in once its pipeline has returned: a clean finish
/// counts unless a stop was requested meanwhile (then the stop's state
/// stays), a cancellation is `Cancelled`, any other error `Failed`.
pub open spec fn spec_settle(outcome: Result<(), Error>, stop_requested: bool) -> Option<JobState> {
    match outcome {
        Ok(()) => if stop_requested {
            None
        } else {
            Some(JobState::Finished)
        },
        Err(Error::Cancelled) => Some(JobState::Cancelled),
        Err(_) => Some(JobState::Failed),
    }
}

/// The state to store when the pipeline returns `outcome`; `None` leaves the
/// stored state as it is.
pub fn settle(outcome: &Result<(), Error>, stop_requested: bool) -> (s: Option<JobState>)
    ensures
        s == spec_settle(*outcome, stop_requested),
{
    match outcome {
        Ok(()) => if stop_requested {
            None
        } else {
            Some(JobState::Finished)
        },
        Err(Error::Cancelled) => Some(JobState::Cancelled),
        Err(_) => Some(JobState::Failed),
    }
}

} // verus!
