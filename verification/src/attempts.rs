//! The walk over the attempts of a user's submissions to an assignment: a
//! step function from the walk's state and what it learns to its next state
//! and what to do.

use vstd::prelude::*;
use crate::assignments::{attempt_name, SubmissionKind};
use crate::numbers::spec_i32_text;

verus! {

/// Where the walk over the attempts of a user's submissions stands: whether
/// attempts are still handled, and the number the next attempt gets.
#[derive(Debug, Clone, Copy, PartialEq, Eq, Structural)]
pub struct AttemptWalk {
    pub keep_going: bool,
    pub index: i32,
}

/// What the walk over attempts learns.
#[derive(Debug, Clone, Copy, PartialEq, Eq, Structural)]
pub enum AttemptEvent {
    /// The attempts of a new submission begin.
    SubmissionStarted,
    /// The next attempt, of the given kind; a quiz attempt may hold items.
    AttemptReached { kind: SubmissionKind, has_quiz_items: bool },
    /// The questions of the quiz were fetched; `found` is false where none came.
    QuestionsFetched { found: bool },
}

/// The kind of step the walk takes.
#[derive(Debug, Clone, Copy, PartialEq, Eq, Structural)]
pub enum AttemptStepKind {
    /// Go on with the current work.
    Proceed,
    /// Create the attempt's directory, then handle no more attempts of this
    /// submission.
    CreateThenStop,
    /// Create the attempt's directory, then fetch the quiz's questions.
    CreateThenFetchQuestions,
    /// Create the attempt's directory; the quiz attempt holds no items.
    CreateThenReportNoItems,
    /// Create the attempt's directory, then mirror the uploaded files.
    CreateThenMirrorUploads,
    /// The quiz's questions were not found: handle no more attempts.
    StopAttempts,
}

/// What the walk does next.
#[derive(Debug)]
pub struct AttemptAction {
    pub kind: AttemptStepKind,
    /// The attempt directory's name, for the steps that create one.
    pub dir_name: Option<String>,
}

/// The name of the directory of the attempt with the given number.
pub open spec fn attempt_dir_name(index: i32) -> Seq<char> {
    "Attempt_"@ + spec_i32_text(index)
}

/// The walk after an event.
pub open spec fn next_walk(w: AttemptWalk, e: AttemptEvent) -> AttemptWalk {
    match e {
        AttemptEvent::SubmissionStarted => AttemptWalk { keep_going: w.keep_going, index: 1 },
        AttemptEvent::AttemptReached { .. } => if w.keep_going {
            AttemptWalk { keep_going: true, index: (w.index + 1) as i32 }
        } else {
            w
        },
        AttemptEvent::QuestionsFetched { found } => if found {
            w
        } else {
            AttemptWalk { keep_going: false, index: w.index }
        },
    }
}

/// The kind of step taken on an event.
pub open spec fn step_kind(w: AttemptWalk, e: AttemptEvent) -> AttemptStepKind {
    match e {
        AttemptEvent::SubmissionStarted => AttemptStepKind::Proceed,
        AttemptEvent::AttemptReached { kind, has_quiz_items } => if !w.keep_going {
            AttemptStepKind::CreateThenStop
        } else {
            match kind {
                SubmissionKind::Quiz => if has_quiz_items {
                    AttemptStepKind::CreateThenFetchQuestions
                } else {
                    AttemptStepKind::CreateThenReportNoItems
                },
                SubmissionKind::Upload => AttemptStepKind::CreateThenMirrorUploads,
            }
        },
        AttemptEvent::QuestionsFetched { found } => if found {
            AttemptStepKind::Proceed
        } else {
            AttemptStepKind::StopAttempts
        },
    }
}

impl AttemptWalk {
    /// The walk before the first submission: attempts are handled.
    pub fn new() -> (w: Self)
        ensures
            w == (AttemptWalk { keep_going: true, index: 1 }),
    {
        AttemptWalk { keep_going: true, index: 1 }
    }
}

/// One step of the walk over attempts: the attempts of each submission are
/// numbered from 1, each gets its directory, a quiz whose questions are not
/// found stops the handling of all later attempts (which still get their
/// directories), and a quiz attempt needs a quiz identifier other than 0.
pub fn attempt_step(w: AttemptWalk, e: AttemptEvent, quiz_id: i32) -> (r: (AttemptWalk, AttemptAction))
    requires
        e is AttemptReached && w.keep_going ==> w.index < i32::MAX,
        (e matches AttemptEvent::AttemptReached { kind: SubmissionKind::Quiz, .. }) && w.keep_going ==> quiz_id != 0,
    ensures
        r.0 == next_walk(w, e),
        r.1.kind == step_kind(w, e),
        r.1.dir_name.deep_view() == match e {
            AttemptEvent::AttemptReached { .. } => Some(attempt_dir_name(w.index)),
            _ => None,
        },
{
    match e {
        AttemptEvent::SubmissionStarted => (
            AttemptWalk { keep_going: w.keep_going, index: 1 },
            AttemptAction { kind: AttemptStepKind::Proceed, dir_name: None },
        ),
        AttemptEvent::AttemptReached { kind, has_quiz_items } => {
            let name = attempt_name(w.index);
            if !w.keep_going {
                return (w, AttemptAction { kind: AttemptStepKind::CreateThenStop, dir_name: Some(name) });
            }
            let next = AttemptWalk { keep_going: true, index: w.index + 1 };
            let step = match kind {
                SubmissionKind::Quiz => if has_quiz_items {
                    AttemptStepKind::CreateThenFetchQuestions
                } else {
                    AttemptStepKind::CreateThenReportNoItems
                },
                SubmissionKind::Upload => AttemptStepKind::CreateThenMirrorUploads,
            };
            (next, AttemptAction { kind: step, dir_name: Some(name) })
        },
        AttemptEvent::QuestionsFetched { found } => {
            if found {
                (w, AttemptAction { kind: AttemptStepKind::Proceed, dir_name: None })
            } else {
                (
                    AttemptWalk { keep_going: false, index: w.index },
                    AttemptAction { kind: AttemptStepKind::StopAttempts, dir_name: None },
                )
            }
        },
    }
}

/// Once the walk has stopped, it stays stopped, and every later attempt only
/// gets its directory.
pub proof fn lemma_stopped_walk_stays_stopped(w: AttemptWalk, e: AttemptEvent)
    requires
        !w.keep_going,
    ensures
        !next_walk(w, e).keep_going,
        e is AttemptReached ==> step_kind(w, e) == AttemptStepKind::CreateThenStop && next_walk(w, e) == w,
{
}

/// While attempts are handled, the attempts of a submission get the numbers
/// 1, 2, 3, ... in turn: a submission starts at 1 and each attempt takes the
/// next number.
pub proof fn lemma_attempt_numbering(w: AttemptWalk, kind: SubmissionKind, has_quiz_items: bool)
    requires
        w.keep_going,
        w.index < i32::MAX,
    ensures
        next_walk(w, AttemptEvent::SubmissionStarted).index == 1,
        next_walk(w, AttemptEvent::AttemptReached { kind, has_quiz_items }).index == w.index + 1,
        next_walk(w, AttemptEvent::AttemptReached { kind, has_quiz_items }).keep_going,
{
}

} // verus!
