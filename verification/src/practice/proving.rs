//! One natural-deduction proof in progress, with the line being typed and the progress
//! snapshot its commands are saved in. Restoring, submitting, undoing and recording all
//! work with no terminal and no window; writing the snapshot out is the caller's.

use vstd::prelude::*;

use crate::exercises::{spec_question_proof, ProofQuestion, ProofQuestionV};
use crate::logic::deduction::{
    initial, replay_from, spec_finished, spec_progress_key, spec_submit, texts_view, LineV, Proof,
    ProofLine, ProofV,
};
use crate::logic::formula::spec_render;
use crate::practice::notice::{Notice, Report, ReportV};
use crate::progress::{saved_commands, spec_record_proof, Progress, ProgressV};
use crate::teaching::ParseError;
use crate::practice::draft::{backspaced, is_control, pasted, typed, Draft, DRAFT_LIMIT};
use crate::text::{decimal, push_decimal, utf8_len, utf8_width};

verus! {

/// `│ ` once for each assumption a line sits under.
pub open spec fn bars(n: nat) -> Seq<char>
    decreases n,
{
    if n == 0 {
        Seq::empty()
    } else {
        bars((n - 1) as nat) + "│ "@
    }
}

/// Line numbers written in decimal and separated by commas.
pub open spec fn numbers(refs: Seq<usize>) -> Seq<char>
    decreases refs.len(),
{
    if refs.len() == 0 {
        Seq::empty()
    } else if refs.len() == 1 {
        decimal(refs[0] as nat)
    } else {
        numbers(refs.drop_last()) + ","@ + decimal(refs.last() as nat)
    }
}

/// Proof line `k` (counted from zero) as a transcript shows it: its number, its depth of
/// assumptions, the formula, and the rule with the lines it cites.
pub open spec fn line_text(k: nat, line: LineV) -> Seq<char> {
    decimal(k + 1) + " "@ + bars(line.scope.len()) + spec_render(line.formula) + " ["@ + line.rule
        + " "@ + numbers(line.references) + "]"@
}

/// Every proof line from `start` on, as a transcript shows them.
pub open spec fn lines_text(lines: Seq<LineV>, start: nat) -> Seq<Seq<char>> {
    if start >= lines.len() {
        Seq::empty()
    } else {
        Seq::new((lines.len() - start) as nat, |i: int| line_text((start + i) as nat, lines[start + i]))
    }
}

pub open spec fn opening_text(p: ProofV) -> Seq<Seq<char>> {
    seq!["自然演绎 · 目标："@ + spec_render(p.goal)] + lines_text(p.lines, 0)
}

/// What to archive after a step that changed a proof of `before` lines: the new lines, or
/// the marker for a line taken back.
pub open spec fn appended_text(p: ProofV, before: nat) -> Seq<Seq<char>> {
    if p.lines.len() > before {
        lines_text(p.lines, before)
    } else if p.lines.len() < before {
        seq!["↶ 撤销第 "@ + decimal(before) + " 行及其假设作用域变更。"@]
    } else {
        Seq::empty()
    }
}

pub struct ProofPracticeV {
    pub question: ProofQuestionV,
    pub proof: ProofV,
    pub progress: ProgressV,
    pub input: Seq<char>,
    pub report: ReportV,
}

/// A proof question in hand: the proof so far, the snapshot it is saved in, the line being
/// typed, and what to show after the last operation.
#[derive(Debug)]
pub struct ProofPractice {
    question: ProofQuestion,
    proof: Proof,
    progress: Progress,
    input: Draft,
    report: Report,
}

impl View for ProofPractice {
    type V = ProofPracticeV;

    closed spec fn view(&self) -> ProofPracticeV {
        ProofPracticeV {
            question: self.question@,
            proof: self.proof@,
            progress: self.progress@,
            input: self.input@,
            report: self.report@,
        }
    }
}

/// The proof a question opens with the commands saved for it replayed, or why it cannot.
pub open spec fn spec_opened(q: ProofQuestionV, progress: ProgressV) -> Result<ProofV, Seq<char>> {
    match spec_question_proof(q) {
        Err(e) => Err(e),
        Ok(start) => replay_from(start, saved_commands(progress, spec_progress_key(start))),
    }
}

impl ProofPractice {
    /// Internally consistent: a well-formed proof and snapshot, and a draft within the
    /// limit whose length in bytes is tracked.
    pub closed spec fn wf(&self) -> bool {
        &&& self.proof.wf()
        &&& self.progress.wf()
        &&& self.input.wf()
    }

    /// What well-formedness gives: the proof in hand is what its own commands replay to,
    /// and the draft is within its limit.
    pub proof fn lemma_wf_parts(&self)
        requires
            self.wf(),
        ensures
            replay_from(
                initial(self@.proof.premises, self@.proof.goal),
                self@.proof.commands,
            ) == Ok::<ProofV, Seq<char>>(self@.proof),
            utf8_len(self@.input) <= DRAFT_LIMIT,
    {
        self.proof.lemma_wf_is_replay();
        self.input.lemma_within_limit();
    }

    /// Opens this question, replaying the commands already saved for exactly these
    /// premises and this conclusion.
    pub fn new(question: ProofQuestion, progress: Progress) -> (result: Result<ProofPractice, ParseError>)
        requires
            progress.wf(),
        ensures
            match spec_opened(question@, progress@) {
                Ok(p) => result matches Ok(practice) && practice.wf() && practice@ == (
                ProofPracticeV {
                    question: question@,
                    proof: p,
                    progress: progress@,
                    input: Seq::empty(),
                    report: ReportV::Notice(Notice::ProofStart),
                }),
                Err(e) => result matches Err(err) && err.0@ == e,
            },
    {
        let start: Proof = question.to_proof()?;
        let commands: Vec<String> = progress.commands(&start);
        let proof: Proof = start.replay(commands.as_slice())?;
        let practice = ProofPractice {
            question,
            proof,
            progress,
            input: Draft::new(),
            report: Report::Notice(Notice::ProofStart),
        };
        assert(practice@.input =~= Seq::<char>::empty());
        Ok(practice)
    }

    pub fn question(&self) -> (question: &ProofQuestion)
        ensures
            question@ == self@.question,
    {
        &self.question
    }

    /// The proof so far.
    pub fn current_proof(&self) -> (proof: &Proof)
        requires
            self.wf(),
        ensures
            proof@ == self@.proof,
            proof.wf(),
    {
        &self.proof
    }

    pub fn progress(&self) -> (progress: &Progress)
        ensures
            progress@ == self@.progress,
    {
        &self.progress
    }

    /// The line being typed.
    pub fn input(&self) -> (input: &str)
        ensures
            input@ == self@.input,
    {
        self.input.as_str()
    }

    /// What to show after the last operation.
    pub fn report(&self) -> (report: &Report)
        ensures
            report@ == self@.report,
    {
        &self.report
    }

    pub fn is_finished(&self) -> (finished: bool)
        ensures
            finished == spec_finished(self@.proof),
    {
        self.proof.is_finished()
    }

    /// Show a sentence the front end owns, such as the rule reference or its key help.
    pub fn note(&mut self, message: String)
        requires
            old(self).wf(),
        ensures
            final(self).wf(),
            final(self)@ == (ProofPracticeV { report: ReportV::Note(message@), ..old(self)@ }),
    {
        self.report = Report::Note(message);
    }

    /// Report a reason the lesson around this proof raised, such as the end of a course.
    pub fn notify(&mut self, notice: Notice)
        requires
            old(self).wf(),
        ensures
            final(self).wf(),
            final(self)@ == (ProofPracticeV { report: ReportV::Notice(notice), ..old(self)@ }),
    {
        self.report = Report::Notice(notice);
    }

    /// Add one character to the draft. False, with the draft unchanged, when it is a
    /// control character or would pass the draft limit.
    pub fn type_character(&mut self, character: char) -> (typed_in: bool)
        requires
            old(self).wf(),
        ensures
            final(self).wf(),
            typed_in == !(is_control(character) || utf8_len(old(self)@.input) + utf8_width(
                character,
            ) > DRAFT_LIMIT),
            final(self)@ == (ProofPracticeV {
                input: typed(old(self)@.input, character),
                ..old(self)@
            }),
    {
        self.input.type_character(character)
    }

    /// Insert pasted text, dropping control characters and stopping at the draft limit.
    pub fn paste(&mut self, text: &str)
        requires
            old(self).wf(),
        ensures
            final(self).wf(),
            final(self)@ == (ProofPracticeV {
                input: pasted(old(self)@.input, text@),
                ..old(self)@
            }),
    {
        self.input.paste(text);
    }

    /// Delete the last character of the draft, if there is one.
    pub fn backspace(&mut self)
        requires
            old(self).wf(),
        ensures
            final(self).wf(),
            final(self)@ == (ProofPracticeV {
                input: backspaced(old(self)@.input),
                ..old(self)@
            }),
    {
        self.input.backspace();
    }

    /// Empty the draft.
    pub fn clear_input(&mut self)
        requires
            old(self).wf(),
        ensures
            final(self).wf(),
            final(self)@ == (ProofPracticeV { input: Seq::empty(), ..old(self)@ }),
    {
        self.input.clear();
    }

    /// Check the typed line. An accepted line extends the proof and empties the draft; a
    /// refused one keeps the draft and the proof as they were. Either way the teaching
    /// rules' own sentence is reported.
    pub fn submit(&mut self) -> (accepted: bool)
        requires
            old(self).wf(),
        ensures
            final(self).wf(),
            match spec_submit(old(self)@.proof, old(self)@.input) {
                Ok((q, message)) => accepted && final(self)@ == (ProofPracticeV {
                    proof: q,
                    input: Seq::empty(),
                    report: ReportV::Taught { message, accepted: true },
                    ..old(self)@
                }),
                Err(e) => !accepted && final(self)@ == (ProofPracticeV {
                    report: ReportV::Taught { message: e, accepted: false },
                    ..old(self)@
                }),
            },
    {
        match self.proof.submit(self.input.as_str()) {
            Ok(message) => {
                self.input.clear();
                self.report = Report::Taught { message, accepted: true };
                true
            },
            Err(error) => {
                self.report = Report::Taught { message: error.0, accepted: false };
                false
            },
        }
    }

    /// Take back the last line, reopening whatever assumption it had discharged. False,
    /// with nothing changed, when no line was added.
    pub fn undo(&mut self) -> (undone: bool)
        requires
            old(self).wf(),
        ensures
            final(self).wf(),
            undone == (old(self)@.proof.commands.len() > 0),
            undone ==> final(self)@ == (ProofPracticeV {
                proof: replay_from(
                    initial(old(self)@.proof.premises, old(self)@.proof.goal),
                    old(self)@.proof.commands.drop_last(),
                )->Ok_0,
                report: ReportV::Notice(Notice::ProofUndone),
                ..old(self)@
            }),
            !undone ==> final(self)@ == old(self)@,
    {
        if !self.proof.undo() {
            return false;
        }
        self.report = Report::Notice(Notice::ProofUndone);
        true
    }

    /// The header and every line already proved, for a front end opening its transcript.
    pub fn opening(&self) -> (lines: Vec<String>)
        requires
            self.wf(),
        ensures
            texts_view(lines@) == opening_text(self@.proof),
    {
        let mut header: String = String::from_str("自然演绎 · 目标：");
        let goal: String = self.proof.goal().render();
        header.append(goal.as_str());
        let mut lines: Vec<String> = Vec::new();
        lines.push(header);
        let rest: Vec<String> = self.lines_from(0);
        let ghost first = lines@;
        let mut rest = rest;
        lines.append(&mut rest);
        proof {
            assert(texts_view(lines@) =~= texts_view(first) + lines_text(self@.proof.lines, 0));
            assert(texts_view(first) =~= seq!["自然演绎 · 目标："@ + spec_render(self@.proof.goal)]);
        }
        lines
    }

    /// What to archive after a step that changed a proof of `before` lines: the new lines,
    /// or the marker for a line taken back, or nothing.
    pub fn appended(&self, before: usize) -> (lines: Vec<String>)
        requires
            self.wf(),
        ensures
            texts_view(lines@) == appended_text(self@.proof, before as nat),
    {
        let count: usize = self.proof.lines().len();
        if count > before {
            self.lines_from(before)
        } else if count < before {
            let mut marker: String = String::from_str("↶ 撤销第 ");
            push_decimal(&mut marker, before);
            marker.append(" 行及其假设作用域变更。");
            let mut lines: Vec<String> = Vec::new();
            lines.push(marker);
            assert(texts_view(lines@) =~= appended_text(self@.proof, before as nat));
            lines
        } else {
            let lines: Vec<String> = Vec::new();
            assert(texts_view(lines@) =~= appended_text(self@.proof, before as nat));
            lines
        }
    }

    /// Proof lines from `start`, numbered and indented by how deep their assumptions run.
    pub fn lines_from(&self, start: usize) -> (lines: Vec<String>)
        requires
            self.wf(),
        ensures
            texts_view(lines@) == lines_text(self@.proof.lines, start as nat),
    {
        let all: &[ProofLine] = self.proof.lines();
        let ghost views = self@.proof.lines;
        let mut lines: Vec<String> = Vec::new();
        if start >= all.len() {
            assert(texts_view(lines@) =~= Seq::<Seq<char>>::empty());
            return lines;
        }
        let ghost wanted = lines_text(views, start as nat);
        let mut k: usize = start;
        assert(texts_view(lines@) =~= wanted.take(0));
        while k < all.len()
            invariant
                start <= k <= all.len(),
                views == self@.proof.lines,
                crate::logic::deduction::lines_view(all@) == views,
                wanted == lines_text(views, start as nat),
                wanted.len() == all.len() - start,
                texts_view(lines@) == wanted.take(k - start),
            decreases all.len() - k,
        {
            let ghost before = lines@;
            assert(views[k as int] == all@[k as int]@);
            let text: String = line_text_of(k, &all[k]);
            lines.push(text);
            proof {
                assert(wanted[k - start] == line_text(k as nat, views[k as int]));
                assert(texts_view(lines@) =~= texts_view(before).push(text@));
                assert(wanted.take(k + 1 - start) =~= wanted.take(k - start).push(wanted[k - start]));
            }
            k += 1;
        }
        assert(wanted.take(all.len() - start) =~= wanted);
        lines
    }

    /// Point the progress snapshot at this question and copy its commands in.
    pub fn record(&mut self)
        requires
            old(self).wf(),
        ensures
            final(self).wf(),
            final(self)@ == (ProofPracticeV {
                progress: spec_record_proof(
                    old(self)@.progress,
                    old(self)@.question.set,
                    old(self)@.question.name,
                    spec_progress_key(old(self)@.proof),
                    old(self)@.proof.commands,
                ),
                ..old(self)@
            }),
    {
        self.progress.record_proof(self.question.set.as_str(), self.question.name.as_str(), &self.proof);
    }
}

/// One proof line as a transcript shows it.
fn line_text_of(k: usize, line: &ProofLine) -> (text: String)
    requires
        k < usize::MAX,
    ensures
        text@ == line_text(k as nat, line@),
{
    let mut text: String = String::new();
    push_decimal(&mut text, k + 1);
    text.append(" ");
    let mut depth: usize = 0;
    while depth < line.scope.len()
        invariant
            depth <= line.scope.len(),
            text@ == decimal((k + 1) as nat) + " "@ + bars(depth as nat),
        decreases line.scope.len() - depth,
    {
        text.append("│ ");
        depth += 1;
    }
    let formula: String = line.formula.render();
    text.append(formula.as_str());
    text.append(" [");
    text.append(line.rule.as_str());
    text.append(" ");
    let mut i: usize = 0;
    let ghost head = text@;
    while i < line.references.len()
        invariant
            i <= line.references.len(),
            text@ == head + numbers(line.references@.take(i as int)),
        decreases line.references.len() - i,
    {
        if i > 0 {
            text.append(",");
        }
        push_decimal(&mut text, line.references[i]);
        proof {
            let next = line.references@.take(i + 1);
            assert(next.drop_last() =~= line.references@.take(i as int));
            if i == 0 {
                assert(line.references@.take(0) =~= Seq::<usize>::empty());
            }
            assert(text@ =~= head + numbers(next));
        }
        i += 1;
    }
    assert(line.references@.take(line.references.len() as int) =~= line.references@);
    text.append("]");
    text
}

} // verus!
