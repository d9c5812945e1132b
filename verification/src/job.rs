//! Remote job states, their token table, and which states call for a new
//! submission.

use vstd::prelude::*;
use crate::error::{Error, ErrorKind};
use crate::text::str_eq;

verus! {

/// The state of a job in the remote history.
#[derive(Clone, Copy, Debug, PartialEq, Eq, Structural)]
pub enum JobState {
    Restartable,
    Runnable,
    Running,
    Failed,
    Done,
}

/// The lowercase token of a job state; the single table both parsing and
/// rendering go by.
pub open spec fn state_token(s: JobState) -> Seq<char> {
    match s {
        JobState::Restartable => seq!['r', 'e', 's', 't', 'a', 'r', 't', 'a', 'b', 'l', 'e'],
        JobState::Runnable => seq!['r', 'u', 'n', 'n', 'a', 'b', 'l', 'e'],
        JobState::Running => seq!['r', 'u', 'n', 'n', 'i', 'n', 'g'],
        JobState::Failed => seq!['f', 'a', 'i', 'l', 'e', 'd'],
        JobState::Done => seq!['d', 'o', 'n', 'e'],
    }
}

/// Which state a token denotes, if any.
pub open spec fn parse_state_spec(t: Seq<char>) -> Option<JobState> {
    if t == state_token(JobState::Restartable) {
        Some(JobState::Restartable)
    } else if t == state_token(JobState::Runnable) {
        Some(JobState::Runnable)
    } else if t == state_token(JobState::Running) {
        Some(JobState::Running)
    } else if t == state_token(JobState::Failed) {
        Some(JobState::Failed)
    } else if t == state_token(JobState::Done) {
        Some(JobState::Done)
    } else {
        None
    }
}

/// A job in this state still needs a submission: it failed, or it sits
/// restartable or runnable without running. Running and finished jobs do
/// not.
pub open spec fn state_needs_submission(s: JobState) -> bool {
    match s {
        JobState::Restartable => true,
        JobState::Runnable => true,
        JobState::Running => false,
        JobState::Failed => true,
        JobState::Done => false,
    }
}

impl JobState {
    /// Parses a state token; an unknown token is a hard error.
    pub fn parse(string: &str) -> (r: Result<JobState, Error>)
        ensures
            match r {
                Ok(s) => parse_state_spec(string@) == Some(s),
                Err(e) => parse_state_spec(string@) is None && e.kind_spec() == ErrorKind::Udix,
            },
    {
        proof {
            reveal_strlit("restartable");
            reveal_strlit("runnable");
            reveal_strlit("running");
            reveal_strlit("failed");
            reveal_strlit("done");
            assert("restartable"@ =~= state_token(JobState::Restartable));
            assert("runnable"@ =~= state_token(JobState::Runnable));
            assert("running"@ =~= state_token(JobState::Running));
            assert("failed"@ =~= state_token(JobState::Failed));
            assert("done"@ =~= state_token(JobState::Done));
        }
        if str_eq(string, "restartable") {
            Ok(JobState::Restartable)
        } else if str_eq(string, "runnable") {
            Ok(JobState::Runnable)
        } else if str_eq(string, "running") {
            Ok(JobState::Running)
        } else if str_eq(string, "failed") {
            Ok(JobState::Failed)
        } else if str_eq(string, "done") {
            Ok(JobState::Done)
        } else {
            proof {
                reveal_strlit("Unknown job state ");
                reveal_strlit(". Known job states are runnable, running, failed and done");
            }
            let message = String::from_str("Unknown job state ").concat(string).concat(
                ". Known job states are runnable, running, failed and done",
            );
            Err(Error::new(ErrorKind::Udix, message, None))
        }
    }

    /// Renders the state's token.
    pub fn text(&self) -> (r: &'static str)
        ensures
            r@ == state_token(*self),
    {
        proof {
            reveal_strlit("restartable");
            reveal_strlit("runnable");
            reveal_strlit("running");
            reveal_strlit("failed");
            reveal_strlit("done");
        }
        let r = match self {
            JobState::Restartable => "restartable",
            JobState::Runnable => "runnable",
            JobState::Running => "running",
            JobState::Failed => "failed",
            JobState::Done => "done",
        };
        proof {
            assert(r@ =~= state_token(*self));
        }
        r
    }

    /// Whether this state still calls for a submission.
    pub fn needs_to_be_submitted(&self) -> (r: bool)
        ensures
            r == state_needs_submission(*self),
    {
        match self {
            JobState::Restartable => true,
            JobState::Runnable => true,
            JobState::Running => false,
            JobState::Failed => true,
            JobState::Done => false,
        }
    }
}

} // verus!
