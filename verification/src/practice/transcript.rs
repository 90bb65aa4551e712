//! A front end's cursor over a lesson's history: which displayed states and proof lines it
//! has already archived. Archive an expression only when the displayed text actually
//! changed, archive each proof line once, and mark a step that was taken back — so every
//! front end archives exactly the same lines.

use vstd::prelude::*;

use crate::logic::deduction::{spec_progress_key, texts_view};
use crate::practice::notice::{Notice, Report, ReportV};
use crate::practice::proving::{appended_text, opening_text, ProofPractice};
use crate::progress::{attempts_view, copy_attempts};
use crate::teaching::{spec_same_attempt, RecordedAttempt};
use crate::text::same_text;

verus! {

pub struct TranscriptV {
    pub key: Seq<char>,
    pub attempts: Seq<(usize, Option<Seq<char>>)>,
    pub lines: nat,
    pub current: Seq<char>,
}

/// The progress key of the question whose block is open (empty before the first), the
/// attempts already archived for it, the proof lines already archived, and the expression
/// on screen, owed to the record when the block closes.
#[derive(Debug)]
pub struct Transcript {
    key: String,
    attempts: Vec<RecordedAttempt>,
    lines: usize,
    current: String,
}

impl View for Transcript {
    type V = TranscriptV;

    closed spec fn view(&self) -> TranscriptV {
        TranscriptV {
            key: self.key@,
            attempts: attempts_view(self.attempts@),
            lines: self.lines as nat,
            current: self.current@,
        }
    }
}

/// What the record says about a step that was taken back: only a restart reads as one.
pub open spec fn spec_taken_back(report: ReportV) -> Seq<char> {
    match report {
        ReportV::Notice(Notice::Restarted) => "已重新开始本题。"@,
        _ => "已撤销上一步。"@,
    }
}

/// Opening the block for `key`: what the previous block still owed the record, then a
/// blank line between the two; the first block needs neither.
pub open spec fn spec_open(t: TranscriptV, key: Seq<char>) -> (TranscriptV, Seq<Seq<char>>) {
    let owed: Seq<Seq<char>> = if t.key.len() == 0 {
        Seq::empty()
    } else if t.current.len() == 0 {
        seq![Seq::empty()]
    } else {
        seq![t.current, Seq::empty()]
    };
    (TranscriptV { key, attempts: Seq::empty(), lines: 0, current: Seq::empty() }, owed)
}

/// The displayed states from `from` on whose text the next state changed; the state after
/// the last one is what is on screen now.
pub open spec fn changed_states(befores: Seq<Seq<char>>, render: Seq<char>, from: int) -> Seq<Seq<char>>
    decreases befores.len() - from,
{
    if from < 0 || from >= befores.len() {
        Seq::empty()
    } else {
        let after = if from + 1 < befores.len() {
            befores[from + 1]
        } else {
            render
        };
        let rest = changed_states(befores, render, from + 1);
        if befores[from] != after {
            seq![befores[from]] + rest
        } else {
            rest
        }
    }
}

pub open spec fn is_prefix(prefix: Seq<(usize, Option<Seq<char>>)>, whole: Seq<(usize, Option<Seq<char>>)>) -> bool {
    prefix.len() <= whole.len() && whole.subrange(0, prefix.len() as int) == prefix
}

/// The lines an evaluation question adds to the record, and the cursor after them: a new
/// block for a new key (its language, then its assignments where it has any), a marker
/// where attempts were taken back, and each displayed state that changed since the cursor.
pub open spec fn spec_evaluation(
    t: TranscriptV,
    key: Seq<char>,
    label: Seq<char>,
    assignments: Seq<char>,
    attempts: Seq<(usize, Option<Seq<char>>)>,
    befores: Seq<Seq<char>>,
    render: Seq<char>,
    report: ReportV,
) -> (TranscriptV, Seq<Seq<char>>) {
    let (opened, head, from): (TranscriptV, Seq<Seq<char>>, int) = if t.key != key {
        let (o, owed) = spec_open(t, key);
        (
            o,
            owed + seq![label] + if assignments.len() == 0 {
                Seq::empty()
            } else {
                seq![assignments]
            },
            0,
        )
    } else if is_prefix(t.attempts, attempts) {
        (t, Seq::empty(), t.attempts.len() as int)
    } else {
        (t, seq!["↶ "@ + spec_taken_back(report)], attempts.len() as int)
    };
    (
        TranscriptV { attempts, current: render, ..opened },
        head + changed_states(befores, render, from),
    )
}

/// The lines a proof adds to the record, and the cursor after them.
pub open spec fn spec_proof_lines(
    t: TranscriptV,
    key: Seq<char>,
    opening: Seq<Seq<char>>,
    appended: Seq<Seq<char>>,
    count: nat,
) -> (TranscriptV, Seq<Seq<char>>) {
    if t.key != key {
        let (o, owed) = spec_open(t, key);
        (TranscriptV { lines: count, ..o }, owed + opening)
    } else {
        (TranscriptV { lines: count, ..t }, appended)
    }
}

fn taken_back(report: &Report) -> (text: &'static str)
    ensures
        text@ == spec_taken_back(report@),
{
    match report {
        Report::Notice(Notice::Restarted) => "已重新开始本题。",
        _ => "已撤销上一步。",
    }
}

/// Whether `prefix` holds the first attempts of `whole`.
fn starts_with(whole: &[RecordedAttempt], prefix: &[RecordedAttempt]) -> (r: bool)
    ensures
        r == is_prefix(attempts_view(prefix@), attempts_view(whole@)),
{
    let ghost p = attempts_view(prefix@);
    let ghost w = attempts_view(whole@);
    if prefix.len() > whole.len() {
        return false;
    }
    let mut i: usize = 0;
    while i < prefix.len()
        invariant
            i <= prefix.len() <= whole.len(),
            p == attempts_view(prefix@),
            w == attempts_view(whole@),
            forall|k: int| 0 <= k < i ==> w[k] == p[k],
        decreases prefix.len() - i,
    {
        let same: bool = prefix[i].same_as(&whole[i]);
        proof {
            assert(p[i as int] == crate::progress::attempt_view(prefix@[i as int]));
            assert(w[i as int] == crate::progress::attempt_view(whole@[i as int]));
            assert(same == (p[i as int] == w[i as int]));
        }
        if !same {
            assert(w.subrange(0, p.len() as int)[i as int] != p[i as int]);
            return false;
        }
        i += 1;
    }
    assert(w.subrange(0, p.len() as int) =~= p);
    true
}

impl Transcript {
    /// Nothing archived yet.
    pub fn new() -> (t: Transcript)
        ensures
            t@.key.len() == 0,
            t@.attempts.len() == 0,
            t@.lines == 0,
            t@.current.len() == 0,
    {
        let t = Transcript {
            key: String::new(),
            attempts: Vec::new(),
            lines: 0,
            current: String::new(),
        };
        assert(t@.attempts =~= Seq::empty());
        t
    }

    fn open(&mut self, key: String, lines: &mut Vec<String>)
        ensures
            final(self)@ == spec_open(old(self)@, key@).0,
            texts_view(final(lines)@) == texts_view(old(lines)@) + spec_open(old(self)@, key@).1,
    {
        let ghost before = texts_view(lines@);
        if !self.key.as_str().is_empty() {
            if !self.current.as_str().is_empty() {
                lines.push(self.current.clone());
            }
            lines.push(String::new());
        }
        proof {
            let owed = spec_open(old(self)@, key@).1;
            assert(texts_view(lines@) =~= before + owed);
        }
        self.key = key;
        self.attempts = Vec::new();
        self.lines = 0;
        self.current = String::new();
        assert(self@.attempts =~= Seq::empty());
    }

    /// The lines an evaluation question adds to the record since the last call, given its
    /// session's progress key, language label and assignments, its accepted attempts, the
    /// text displayed before each accepted step, the text displayed now, and the report
    /// of the last operation.
    pub fn evaluation(
        &mut self,
        key: String,
        label: &str,
        assignments: &str,
        attempts: &[RecordedAttempt],
        befores: &[String],
        render: &str,
        report: &Report,
    ) -> (lines: Vec<String>)
        ensures
            ({
                let (after, added) = spec_evaluation(
                    old(self)@,
                    key@,
                    label@,
                    assignments@,
                    attempts_view(attempts@),
                    texts_view(befores@),
                    render@,
                    report@,
                );
                final(self)@ == after && texts_view(lines@) == added
            }),
    {
        let ghost start = self@;
        let mut lines: Vec<String> = Vec::new();
        let from: usize = if !same_text(self.key.as_str(), key.as_str()) {
            self.open(key, &mut lines);
            lines.push(String::from_str(label));
            if !assignments.is_empty() {
                lines.push(String::from_str(assignments));
            }
            0
        } else if starts_with(attempts, self.attempts.as_slice()) {
            self.attempts.len()
        } else {
            let mut marker: String = String::from_str("↶ ");
            marker.append(taken_back(report));
            lines.push(marker);
            attempts.len()
        };
        let ghost head = texts_view(lines@);
        let ghost bv = texts_view(befores@);
        proof {
            let (opened, expected_head, expected_from): (TranscriptV, Seq<Seq<char>>, int) = if start.key != key@ {
                let (o, owed) = spec_open(start, key@);
                (
                    o,
                    owed + seq![label@] + if assignments@.len() == 0 {
                        Seq::empty()
                    } else {
                        seq![assignments@]
                    },
                    0,
                )
            } else if is_prefix(start.attempts, attempts_view(attempts@)) {
                (start, Seq::empty(), start.attempts.len() as int)
            } else {
                (start, seq!["↶ "@ + spec_taken_back(report@)], attempts@.len() as int)
            };
            assert(head =~= expected_head);
            assert(from == expected_from);
            assert(self@ == opened);
        }
        let mut index: usize = from;
        while index < befores.len()
            invariant
                from <= index || befores.len() <= from,
                bv == texts_view(befores@),
                texts_view(lines@) + changed_states(bv, render@, index as int) == head
                    + changed_states(bv, render@, from as int),
            decreases befores.len() - index,
        {
            let ghost earlier = texts_view(lines@);
            let changed: bool = if index + 1 < befores.len() {
                !same_text(befores[index].as_str(), befores[index + 1].as_str())
            } else {
                !same_text(befores[index].as_str(), render)
            };
            proof {
                assert(bv[index as int] == befores@[index as int]@);
                if index + 1 < befores.len() {
                    assert(bv[index + 1] == befores@[index + 1]@);
                }
            }
            if changed {
                lines.push(befores[index].clone());
                assert(texts_view(lines@) =~= earlier.push(bv[index as int]));
                assert(seq![bv[index as int]] + changed_states(bv, render@, index + 1) =~= changed_states(
                    bv,
                    render@,
                    index as int,
                ));
                assert(texts_view(lines@) + changed_states(bv, render@, index + 1) =~= earlier
                    + changed_states(bv, render@, index as int));
            }
            index += 1;
        }
        proof {
            assert(changed_states(bv, render@, index as int) =~= Seq::<Seq<char>>::empty());
            assert(texts_view(lines@) =~= head + changed_states(bv, render@, from as int));
        }
        self.attempts = copy_attempts(attempts);
        self.current = String::from_str(render);
        lines
    }

    /// The lines a proof adds to the record since the last call: the proof's opening for a
    /// new block, else the lines it gained or the marker for one taken back.
    pub fn proof_lines(&mut self, practice: &ProofPractice) -> (lines: Vec<String>)
        requires
            practice.wf(),
        ensures
            ({
                let (after, added) = spec_proof_lines(
                    old(self)@,
                    spec_progress_key(practice@.proof),
                    opening_text(practice@.proof),
                    appended_text(practice@.proof, old(self)@.lines),
                    practice@.proof.lines.len(),
                );
                final(self)@ == after && texts_view(lines@) == added
            }),
    {
        let key: String = practice.current_proof().progress_key();
        let mut lines: Vec<String> = Vec::new();
        if !same_text(self.key.as_str(), key.as_str()) {
            self.open(key, &mut lines);
            let ghost owed = texts_view(lines@);
            let mut opening: Vec<String> = practice.opening();
            lines.append(&mut opening);
            assert(texts_view(lines@) =~= owed + opening_text(practice@.proof));
        } else {
            lines = practice.appended(self.lines);
        }
        let proved = practice.current_proof().lines();
        let count: usize = proved.len();
        proof {
            assert(crate::logic::deduction::lines_view(proved@).len() == count);
        }
        self.lines = count;
        lines
    }
}

} // verus!
