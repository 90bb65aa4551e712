//! The questions a run has drawn and the one in hand. Which question comes next is a
//! question-source decision, so every front end walks the same course the same way.

use vstd::prelude::*;

use crate::generate::is_random;

use crate::exercises::{question_language, questions_view, Exercise, Question, QuestionV};
use crate::teaching::{Language, ParseError};

verus! {

/// Where practice continues once the student passes the questions already drawn.
#[derive(Clone, Copy, Debug, PartialEq, Eq, Structural)]
pub enum Supply {
    /// Draw a fresh question in the current question's language; never runs out.
    Random,
    /// The questions are exactly this list, in order; practice ends after the last one.
    Ordered,
}

pub struct CourseV {
    pub questions: Seq<QuestionV>,
    pub index: int,
    pub supply: Supply,
}

/// The questions drawn so far, the position of the one in hand, and where more come from.
#[derive(Clone, Debug)]
pub struct Course {
    questions: Vec<Question>,
    index: usize,
    supply: Supply,
}

impl View for Course {
    type V = CourseV;

    closed spec fn view(&self) -> CourseV {
        CourseV {
            questions: questions_view(self.questions@),
            index: self.index as int,
            supply: self.supply,
        }
    }
}

pub open spec fn no_such_question() -> Seq<char> {
    "没有这道题。"@
}

/// The course moved onto the next question already drawn.
pub open spec fn advanced(c: CourseV) -> CourseV {
    CourseV { index: c.index + 1, ..c }
}

/// The course drew `e`, added it, and moved onto it.
pub open spec fn drawn(c: CourseV, q: QuestionV) -> CourseV {
    CourseV { questions: c.questions.push(q), index: c.index + 1, ..c }
}

/// The course moved back one question, or stayed on the first.
pub open spec fn stepped_back(c: CourseV) -> CourseV {
    CourseV {
        index: if c.index > 0 {
            c.index - 1
        } else {
            0
        },
        ..c
    }
}

/// The course as these arguments open it.
pub open spec fn opened(questions: Seq<QuestionV>, index: int, supply: Supply) -> CourseV {
    CourseV { questions, index, supply }
}

/// The course is on its last drawn question.
pub open spec fn at_last(c: CourseV) -> bool {
    c.index + 1 == c.questions.len()
}

/// What drawing a random question means: whatever `draw` gives for a language is a
/// generated question, named as random ones are, in that language.
pub open spec fn generates<F: FnOnce(Language) -> Result<Exercise, ParseError>>(draw: F) -> bool {
    forall|language: Language, e: Exercise|
        #[trigger] call_ensures(draw, (language,), Ok::<Exercise, ParseError>(e)) ==> e@.language
            == language && is_random(e@.name)
}

impl Course {
    /// The question in hand is one of those drawn.
    pub open spec fn wf(&self) -> bool {
        0 <= self@.index < self@.questions.len()
    }

    /// A course over these questions starting at `index`; refused where no question sits
    /// at that position.
    pub fn new(questions: Vec<Question>, index: usize, supply: Supply) -> (result: Result<Course, ParseError>)
        ensures
            index >= questions.len() ==> (result matches Err(e) && e.0@ == no_such_question()),
            index < questions.len() ==> (result matches Ok(c) && c.wf() && c@ == opened(
                questions_view(questions@),
                index as int,
                supply,
            )),
    {
        if index >= questions.len() {
            return Err(ParseError::from_str("没有这道题。"));
        }
        Ok(Course { questions, index, supply })
    }

    /// The default practice: walk the questions already chosen, then keep drawing.
    pub fn random(questions: Vec<Question>, index: usize) -> (result: Result<Course, ParseError>)
        ensures
            index >= questions.len() ==> (result matches Err(e) && e.0@ == no_such_question()),
            index < questions.len() ==> (result matches Ok(c) && c.wf() && c@ == opened(
                questions_view(questions@),
                index as int,
                Supply::Random,
            )),
    {
        Course::new(questions, index, Supply::Random)
    }

    /// A fixed set practised in order.
    pub fn ordered(questions: Vec<Question>, index: usize) -> (result: Result<Course, ParseError>)
        ensures
            index >= questions.len() ==> (result matches Err(e) && e.0@ == no_such_question()),
            index < questions.len() ==> (result matches Ok(c) && c.wf() && c@ == opened(
                questions_view(questions@),
                index as int,
                Supply::Ordered,
            )),
    {
        Course::new(questions, index, Supply::Ordered)
    }

    pub fn current(&self) -> (question: &Question)
        requires
            self.wf(),
        ensures
            question@ == self@.questions[self@.index],
    {
        &self.questions[self.index]
    }

    pub fn questions(&self) -> (questions: &[Question])
        ensures
            questions_view(questions@) == self@.questions,
    {
        self.questions.as_slice()
    }

    pub fn index(&self) -> (index: usize)
        ensures
            index == self@.index,
    {
        self.index
    }

    pub fn supply(&self) -> (supply: Supply)
        ensures
            supply == self@.supply,
    {
        self.supply
    }

    /// Each question names its own language; a course may mix them.
    pub fn language(&self) -> (language: Language)
        requires
            self.wf(),
        ensures
            language == question_language(self@.questions[self@.index]),
    {
        self.questions[self.index].language()
    }

    /// Move to the next question. On the last one drawn, an ordered course has ended:
    /// `Ok(false)` and the course untouched. A random one asks `draw`, which generates
    /// questions, for a question in the
    /// current language, adds it and moves onto it, or hands back why none came.
    pub fn forward<F: FnOnce(Language) -> Result<Exercise, ParseError>>(&mut self, draw: F) -> (result: Result<bool, ParseError>)
        requires
            old(self).wf(),
            at_last(old(self)@) && old(self)@.supply == Supply::Random ==> call_requires(
                draw,
                (question_language(old(self)@.questions[old(self)@.index]),),
            ) && generates(draw),
        ensures
            final(self).wf(),
            !at_last(old(self)@) ==> (result matches Ok(true) && final(self)@ == advanced(old(self)@)),
            at_last(old(self)@) && old(self)@.supply == Supply::Ordered ==> (result matches Ok(false)
                && final(self)@ == old(self)@),
            at_last(old(self)@) && old(self)@.supply == Supply::Random ==> match result {
                Ok(moved) => moved && (exists|e: Exercise|
                    call_ensures(
                        draw,
                        (question_language(old(self)@.questions[old(self)@.index]),),
                        Ok::<Exercise, ParseError>(e),
                    ) && e@.language == question_language(old(self)@.questions[old(self)@.index])
                        && is_random(e@.name) && final(self)@ == drawn(
                        old(self)@,
                        QuestionV::Evaluation(e@),
                    )),
                Err(error) => call_ensures(
                    draw,
                    (question_language(old(self)@.questions[old(self)@.index]),),
                    Err::<Exercise, ParseError>(error),
                ) && final(self)@ == old(self)@,
            },
    {
        assert(self.index < self.questions.len());
        if self.index + 1 == self.questions.len() {
            if self.supply == Supply::Ordered {
                return Ok(false);
            }
            let language: Language = self.questions[self.index].language();
            let outcome: Result<Exercise, ParseError> = draw(language);
            match outcome {
                Ok(next) => {
                    let ghost before = *self;
                    let ghost e = next;
                    self.questions.push(Question::Evaluation(next));
                    self.index = self.index + 1;
                    proof {
                        assert(questions_view(self.questions@) =~= questions_view(before.questions@).push(
                            QuestionV::Evaluation(e@),
                        ));
                        assert(self@ == drawn(before@, QuestionV::Evaluation(e@)));
                        assert(call_ensures(draw, (language,), Ok::<Exercise, ParseError>(e)));
                    }
                    return Ok(true);
                },
                Err(error) => {
                    return Err(error);
                },
            }
        }
        self.index = self.index + 1;
        Ok(true)
    }

    /// Move back through the questions already drawn. False at the first one, where the
    /// course stays put.
    pub fn backward(&mut self) -> (moved: bool)
        requires
            old(self).wf(),
        ensures
            final(self).wf(),
            moved == (old(self)@.index > 0),
            final(self)@ == stepped_back(old(self)@),
    {
        let moved: bool = self.index > 0;
        if moved {
            self.index = self.index - 1;
        }
        moved
    }
}

/// Stepping forward within the questions already drawn and back again returns to the same
/// question, with nothing drawn or lost.
pub proof fn law_forward_then_backward(c: CourseV)
    requires
        0 <= c.index < c.questions.len(),
        !at_last(c),
    ensures
        stepped_back(advanced(c)) == c,
{
}

} // verus!
