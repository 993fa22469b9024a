//! The messages between the CI client and daemon.
use vstd::prelude::*;
use crate::ci::types::{AttemptNumber, CommitSha, RepoName};

verus! {

/// What a client asks of the daemon.
#[derive(Debug)]
pub enum Request {
    Status { repo: Option<RepoName> },
    Cancel { sha: CommitSha, repo: Option<RepoName> },
    CancelAll,
    Retry { repo: RepoName, sha: CommitSha },
    Shutdown,
}

/// What the daemon answers.
#[derive(Debug)]
pub enum Response {
    Okay { message: String },
    Status { runs: Vec<RunSummary> },
    Error { message: String },
}

/// One run as the status answer lists it.
#[derive(Debug, Clone)]
pub struct RunSummary {
    pub repo: RepoName,
    pub sha: CommitSha,
    pub commit_message: String,
    pub attempt: AttemptNumber,
    pub state: RunState,
    pub jobs_total: usize,
    pub jobs_passed: usize,
    pub jobs_failed: usize,
}

/// Where a run stands.
#[derive(Debug, Clone, Copy, PartialEq, Eq, Structural)]
pub enum RunState {
    Running,
    Passed,
    Failed,
    Cancelled,
}

impl RunState {
    /// The state as the status listing shows it.
    pub fn label(&self) -> (r: &'static str)
        ensures
            r@ == match self {
                RunState::Running => "RUNNING"@,
                RunState::Passed => "PASSED"@,
                RunState::Failed => "FAILED"@,
                RunState::Cancelled => "CANCELLED"@,
            },
    {
        match self {
            RunState::Running => "RUNNING",
            RunState::Passed => "PASSED",
            RunState::Failed => "FAILED",
            RunState::Cancelled => "CANCELLED",
        }
    }
}

} // verus!
