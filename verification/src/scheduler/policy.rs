//! The failure decision table: what to do when a compilation ends.
//! Its inputs are only the retry count, the outcome and whether a request
//! waits.

use vstd::prelude::*;
use crate::types::{CompileOutcome, ErrorEntry, FailureKind};

verus! {

/// What the scheduler does next.
#[derive(Debug, Clone, Copy, PartialEq, Eq, Structural)]
pub enum Decide {
    /// Run the waiting (latest) request.
    StartPending,
    /// Timed out with nothing waiting: run the same request once more.
    Retry,
    /// Succeeded with nothing waiting.
    FinishOk,
    /// Show a failure (no retry).
    Fail(FailureKind),
}

/// The decision table.
///
/// | outcome      | pending | attempt | decision            |
/// |--------------|---------|---------|---------------------|
/// | Success      | yes     | any     | StartPending        |
/// | Success      | no      | any     | FinishOk            |
/// | Timeout      | yes     | any     | StartPending        |
/// | Timeout      | no      | 0       | Retry               |
/// | Timeout      | no      | other   | Fail(Timeout)       |
/// | ContentError | yes     | any     | StartPending        |
/// | ContentError | no      | any     | Fail(ContentError)  |
/// | Aborted      | yes     | any     | StartPending        |
/// | Aborted      | no      | any     | Fail(Aborted)       |
/// | IoError      | as ContentError                          |
pub open spec fn decide_spec(attempt: u8, outcome: CompileOutcome, has_pending: bool) -> Decide {
    if has_pending {
        Decide::StartPending
    } else {
        match outcome {
            CompileOutcome::Success { .. } => Decide::FinishOk,
            CompileOutcome::Timeout => if attempt == 0 {
                Decide::Retry
            } else {
                Decide::Fail(FailureKind::Timeout)
            },
            CompileOutcome::ContentError { .. } => Decide::Fail(FailureKind::ContentError),
            CompileOutcome::IoError { .. } => Decide::Fail(FailureKind::ContentError),
            CompileOutcome::Aborted => Decide::Fail(FailureKind::Aborted),
        }
    }
}

/// Looks up the decision table.
pub fn decide(attempt: u8, outcome: &CompileOutcome, has_pending: bool) -> (d: Decide)
    ensures
        d == decide_spec(attempt, *outcome, has_pending),
{
    match outcome {
        CompileOutcome::Success { .. } => {
            if has_pending {
                Decide::StartPending
            } else {
                Decide::FinishOk
            }
        },
        CompileOutcome::Timeout => {
            if has_pending {
                Decide::StartPending
            } else if attempt == 0 {
                Decide::Retry
            } else {
                Decide::Fail(FailureKind::Timeout)
            }
        },
        CompileOutcome::ContentError { .. } | CompileOutcome::IoError { .. } => {
            if has_pending {
                Decide::StartPending
            } else {
                Decide::Fail(FailureKind::ContentError)
            }
        },
        CompileOutcome::Aborted => {
            if has_pending {
                Decide::StartPending
            } else {
                Decide::Fail(FailureKind::Aborted)
            }
        },
    }
}

/// Laws of the table: a waiting request always wins; only a first timeout
/// is retried (so a request runs at most twice in a row); an I/O failure
/// counts as a content error; success is never shown as a failure.
pub proof fn lemma_decide_laws(
    attempt: u8,
    outcome: CompileOutcome,
    has_pending: bool,
    errors: Vec<ErrorEntry>,
)
    ensures
        has_pending ==> decide_spec(attempt, outcome, has_pending) == Decide::StartPending,
        decide_spec(attempt, outcome, has_pending) == Decide::Retry <==> (!has_pending
            && outcome is Timeout && attempt == 0),
        outcome is IoError ==> decide_spec(attempt, outcome, has_pending) == decide_spec(
            attempt,
            CompileOutcome::ContentError { errors },
            has_pending,
        ),
        outcome is Success ==> !(decide_spec(attempt, outcome, has_pending) is Fail),
{
}

/// The table with nothing waiting, outcome by outcome: a success finishes,
/// a first timeout is retried and a later one fails as a timeout, content
/// and I/O errors fail as content errors, an abort fails as aborted.
pub proof fn lemma_decide_without_pending(attempt: u8, outcome: CompileOutcome)
    ensures
        outcome is Success ==> decide_spec(attempt, outcome, false) == Decide::FinishOk,
        outcome is Timeout && attempt == 0 ==> decide_spec(attempt, outcome, false) == Decide::Retry,
        outcome is Timeout && attempt > 0 ==> decide_spec(attempt, outcome, false) == Decide::Fail(
            FailureKind::Timeout,
        ),
        outcome is ContentError ==> decide_spec(attempt, outcome, false) == Decide::Fail(
            FailureKind::ContentError,
        ),
        outcome is IoError ==> decide_spec(attempt, outcome, false) == Decide::Fail(
            FailureKind::ContentError,
        ),
        outcome is Aborted ==> decide_spec(attempt, outcome, false) == Decide::Fail(
            FailureKind::Aborted,
        ),
{
}

} // verus!
