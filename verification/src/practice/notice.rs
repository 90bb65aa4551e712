//! What a front end is told after an operation: a sentence the teaching rules worded, a
//! reason it words itself, or a sentence it handed in.

use vstd::prelude::*;

use crate::teaching::{EvaluationMode, Feedback, FeedbackKind};

verus! {

/// Why something must be said when no step was judged. None of these carries a sentence:
/// several can only be said by naming a key or an input device that a front end alone
/// knows.
#[derive(Clone, Copy, Debug, PartialEq, Eq, Structural)]
pub enum Notice {
    /// A question just opened and nothing has been selected yet.
    Start,
    /// A blank is open at the selected node, waiting for a typed answer.
    DraftOpen,
    /// The whole expression is one operation over two values, so its blank opened with no
    /// selection.
    FinalPair,
    /// A hint was asked for where no step is left to name.
    NoNextStep,
    /// The last student step was taken back.
    Undone,
    /// The question started again from its source.
    Restarted,
    /// The evaluation strategy changed to this one; each keeps its own progress.
    ModeSwitched(EvaluationMode),
    /// An ordered set has no question after the current one.
    CourseEnded,
    /// A proof just opened and no line has been entered.
    ProofStart,
    /// The last proof line was taken back, reopening its assumption scope.
    ProofUndone,
}

/// What a front end has to show after an operation.
#[derive(Debug)]
pub enum Report {
    /// Worded by the teaching rules, with their own acceptance.
    Taught { message: String, accepted: bool },
    /// Not worded at all: the reason alone, for the front end to say.
    Notice(Notice),
    /// Worded by the front end and handed back in, such as its own key help.
    Note(String),
}

pub enum ReportV {
    Taught { message: Seq<char>, accepted: bool },
    Notice(Notice),
    Note(Seq<char>),
}

impl View for Report {
    type V = ReportV;

    open spec fn view(&self) -> ReportV {
        match self {
            Report::Taught { message, accepted } => ReportV::Taught {
                message: message@,
                accepted: *accepted,
            },
            Report::Notice(notice) => ReportV::Notice(*notice),
            Report::Note(message) => ReportV::Note(message@),
        }
    }
}

/// Good news is a step the teaching rules accepted, and nothing else.
pub open spec fn spec_good(report: ReportV) -> bool {
    match report {
        ReportV::Taught { accepted, .. } => accepted,
        _ => false,
    }
}

impl Report {
    /// True only where the teaching rules accepted a step; a notice is never good news.
    pub fn good(&self) -> (good: bool)
        ensures
            good == spec_good(self@),
    {
        match self {
            Report::Taught { accepted, .. } => *accepted,
            Report::Notice(_) => false,
            Report::Note(_) => false,
        }
    }

    /// An independent copy.
    pub fn duplicate(&self) -> (r: Report)
        ensures
            r@ == self@,
    {
        match self {
            Report::Taught { message, accepted } => Report::Taught {
                message: message.clone(),
                accepted: *accepted,
            },
            Report::Notice(notice) => Report::Notice(*notice),
            Report::Note(message) => Report::Note(message.clone()),
        }
    }
}

impl From<Feedback> for Report {
    fn from(feedback: Feedback) -> (report: Report) {
        let accepted: bool = feedback.accepted();
        Report::Taught { message: feedback.message, accepted }
    }
}

impl vstd::std_specs::convert::FromSpecImpl<Feedback> for Report {
    open spec fn obeys_from_spec() -> bool {
        true
    }

    open spec fn from_spec(feedback: Feedback) -> Report {
        Report::Taught {
            message: feedback.message,
            accepted: feedback.kind == FeedbackKind::Correct,
        }
    }
}

/// A report made from feedback is good news exactly when the feedback accepted the step.
pub proof fn law_feedback_good_iff_correct(feedback: Feedback)
    ensures
        spec_good(
            <Report as vstd::std_specs::convert::FromSpec<Feedback>>::from_spec(feedback)@,
        ) == (feedback.kind == FeedbackKind::Correct),
{
}

} // verus!
