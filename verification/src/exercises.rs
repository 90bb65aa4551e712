//! The question model: a versioned set of evaluation and proof questions, and the checks
//! a set must pass before it is practised. Reading the file format itself belongs to the
//! caller; the set is assembled here from its fields and held to the same rules whether
//! it shipped with the program or was imported.

use vstd::prelude::*;

use crate::logic::deduction::{formulas_view, initial, Proof};
use crate::logic::formula::{less_text, strictly_sorted, text_less, Formula};
use crate::logic::parse::{parse_formula, parse_truth, spec_parse_formula, spec_truth};
use crate::teaching::{
    spec_default_mode, spec_literal_form, EvaluationMode, Language, ParseError,
};
use crate::text::{chars_of, decimal, is_space, is_whitespace, push_decimal};

verus! {

/// The name the embedded set carries. An imported set may not claim it: progress is kept
/// per set name.
pub const BUILTIN_SET: &'static str = "builtin";

/// The set format this build reads.
pub const FORMAT_VERSION: u32 = 1;

/// What one imported set may weigh, in bytes, questions, and premises of one proof.
pub const MAX_BYTES: usize = 1048576;

pub const MAX_QUESTIONS: usize = 1024;

pub const MAX_PREMISES: usize = 64;

/// Empty or white space only: what `str::trim` leaves nothing of.
pub open spec fn blank(s: Seq<char>) -> bool {
    forall|k: int| 0 <= k < s.len() ==> is_space(#[trigger] s[k])
}

pub fn is_blank(s: &str) -> (r: bool)
    ensures
        r == blank(s@),
{
    let chars: Vec<char> = crate::text::chars_of(s);
    let mut i: usize = 0;
    while i < chars.len()
        invariant
            i <= chars.len(),
            chars@ == s@,
            forall|k: int| 0 <= k < i ==> is_space(#[trigger] s@[k]),
        decreases chars.len() - i,
    {
        if !is_whitespace(chars[i]) {
            return false;
        }
        i += 1;
    }
    true
}

/// An evaluation question: the source to work through, the language whose rules apply,
/// and the source literal each name stands for, sorted by name with no name twice.
#[derive(Clone, Debug)]
pub struct Exercise {
    /// The set this question came from, stamped when the set is assembled; empty for a
    /// random or custom question.
    pub set: String,
    pub name: String,
    pub title: String,
    pub language: Language,
    pub expression: String,
    /// The prose shown with the question, not a formula.
    pub note: Option<String>,
    pub bindings: Vec<(String, String)>,
    /// The strategy this question opens in, where it names one.
    pub evaluation: Option<EvaluationMode>,
}

/// A natural-deduction question: the premises given and the formula to derive.
#[derive(Clone, Debug)]
pub struct ProofQuestion {
    /// The set this question came from, stamped when the set is assembled.
    pub set: String,
    pub name: String,
    pub title: String,
    /// The prose shown with the question, not a formula.
    pub note: Option<String>,
    pub premises: Vec<String>,
    pub conclusion: String,
}

/// One question in a set.
#[derive(Clone, Debug)]
pub enum Question {
    Evaluation(Exercise),
    Proof(ProofQuestion),
}

pub struct ExerciseV {
    pub set: Seq<char>,
    pub name: Seq<char>,
    pub title: Seq<char>,
    pub language: Language,
    pub expression: Seq<char>,
    pub note: Option<Seq<char>>,
    pub bindings: Seq<(Seq<char>, Seq<char>)>,
    pub evaluation: Option<EvaluationMode>,
}

impl ExerciseV {
    /// The bindings are sorted by name with no name twice, as the question sets and the
    /// generator write them.
    pub open spec fn wf(self) -> bool {
        strictly_sorted(self.bindings.map_values(|p: (Seq<char>, Seq<char>)| p.0))
    }
}

pub open spec fn pairs_view(pairs: Seq<(String, String)>) -> Seq<(Seq<char>, Seq<char>)> {
    pairs.map_values(|p: (String, String)| (p.0@, p.1@))
}

pub open spec fn strings_view(texts: Seq<String>) -> Seq<Seq<char>> {
    texts.map_values(|t: String| t@)
}

impl View for Exercise {
    type V = ExerciseV;

    open spec fn view(&self) -> ExerciseV {
        ExerciseV {
            set: self.set@,
            name: self.name@,
            title: self.title@,
            language: self.language,
            expression: self.expression@,
            note: match self.note {
                Some(n) => Some(n@),
                None => None,
            },
            bindings: pairs_view(self.bindings@),
            evaluation: self.evaluation,
        }
    }
}

pub struct ProofQuestionV {
    pub set: Seq<char>,
    pub name: Seq<char>,
    pub title: Seq<char>,
    pub note: Option<Seq<char>>,
    pub premises: Seq<Seq<char>>,
    pub conclusion: Seq<char>,
}

impl View for ProofQuestion {
    type V = ProofQuestionV;

    open spec fn view(&self) -> ProofQuestionV {
        ProofQuestionV {
            set: self.set@,
            name: self.name@,
            title: self.title@,
            note: match self.note {
                Some(n) => Some(n@),
                None => None,
            },
            premises: strings_view(self.premises@),
            conclusion: self.conclusion@,
        }
    }
}

pub enum QuestionV {
    Evaluation(ExerciseV),
    Proof(ProofQuestionV),
}

impl View for Question {
    type V = QuestionV;

    open spec fn view(&self) -> QuestionV {
        match self {
            Question::Evaluation(e) => QuestionV::Evaluation(e@),
            Question::Proof(p) => QuestionV::Proof(p@),
        }
    }
}

pub open spec fn questions_view(qs: Seq<Question>) -> Seq<QuestionV> {
    qs.map_values(|q: Question| q@)
}

pub open spec fn question_name(q: QuestionV) -> Seq<char> {
    match q {
        QuestionV::Evaluation(e) => e.name,
        QuestionV::Proof(p) => p.name,
    }
}

pub open spec fn question_title(q: QuestionV) -> Seq<char> {
    match q {
        QuestionV::Evaluation(e) => e.title,
        QuestionV::Proof(p) => p.title,
    }
}

pub open spec fn question_set(q: QuestionV) -> Seq<char> {
    match q {
        QuestionV::Evaluation(e) => e.set,
        QuestionV::Proof(p) => p.set,
    }
}

/// Natural deduction is propositional, so a proof question is a logic question.
pub open spec fn question_language(q: QuestionV) -> Language {
    match q {
        QuestionV::Evaluation(e) => e.language,
        QuestionV::Proof(_) => Language::Logic,
    }
}

/// The strategy an exercise opens in when nothing else decides.
pub open spec fn spec_mode(e: ExerciseV) -> EvaluationMode {
    match e.evaluation {
        Some(mode) => mode,
        None => spec_default_mode(e.language),
    }
}

/// `name=value` for each binding, separated by single spaces.
pub open spec fn spec_assignments(bindings: Seq<(Seq<char>, Seq<char>)>) -> Seq<char>
    decreases bindings.len(),
{
    if bindings.len() == 0 {
        Seq::empty()
    } else if bindings.len() == 1 {
        bindings[0].0 + "="@ + bindings[0].1
    } else {
        spec_assignments(bindings.drop_last()) + " "@ + bindings.last().0 + "="@
            + bindings.last().1
    }
}

/// The prose shown with a question, empty where it has none.
pub open spec fn note_text(note: Option<Seq<char>>) -> Seq<char> {
    match note {
        Some(n) => n,
        None => Seq::empty(),
    }
}

pub open spec fn spec_prompt(e: ExerciseV) -> Seq<char> {
    if e.bindings.len() == 0 {
        note_text(e.note)
    } else {
        "赋值："@ + spec_assignments(e.bindings) + "。"@ + note_text(e.note)
    }
}

/// Texts joined with a separator between neighbours.
pub open spec fn joined(texts: Seq<Seq<char>>, separator: Seq<char>) -> Seq<char>
    decreases texts.len(),
{
    if texts.len() == 0 {
        Seq::empty()
    } else if texts.len() == 1 {
        texts[0]
    } else {
        joined(texts.drop_last(), separator) + separator + texts.last()
    }
}

/// Premises and conclusion on one line: `A，B ⊢ C`, or `⊢ C` with no premises.
pub open spec fn spec_sequent(q: ProofQuestionV) -> Seq<char> {
    if q.premises.len() == 0 {
        "⊢ "@ + q.conclusion
    } else {
        joined(q.premises, "，"@) + " ⊢ "@ + q.conclusion
    }
}

/// Each premise read in order; the first one that does not parse decides the error.
pub open spec fn parse_all(sources: Seq<Seq<char>>) -> Result<Seq<crate::logic::formula::FormulaV>, Seq<char>>
    decreases sources.len(),
{
    if sources.len() == 0 {
        Ok(Seq::empty())
    } else {
        match parse_all(sources.drop_last()) {
            Err(e) => Err(e),
            Ok(fs) => match spec_parse_formula(sources.last()) {
                Err(e) => Err(e),
                Ok(f) => Ok(fs.push(f)),
            },
        }
    }
}

/// The proof a question opens: premises first, then the conclusion, each parsed by the
/// formula grammar.
pub open spec fn spec_question_proof(q: ProofQuestionV) -> Result<crate::logic::deduction::ProofV, Seq<char>> {
    match parse_all(q.premises) {
        Err(e) => Err(e),
        Ok(premises) => match spec_parse_formula(q.conclusion) {
            Err(e) => Err(e),
            Ok(goal) => Ok(initial(premises, goal)),
        },
    }
}

/// An independent copy of a string.
pub fn copy_text(s: &String) -> (r: String)
    ensures
        r@ == s@,
{
    s.clone()
}

pub fn copy_pairs(pairs: &Vec<(String, String)>) -> (r: Vec<(String, String)>)
    ensures
        pairs_view(r@) == pairs_view(pairs@),
{
    let mut r: Vec<(String, String)> = Vec::new();
    let mut i: usize = 0;
    while i < pairs.len()
        invariant
            i <= pairs.len(),
            pairs_view(r@) == pairs_view(pairs@).take(i as int),
        decreases pairs.len() - i,
    {
        let ghost before = r@;
        r.push((pairs[i].0.clone(), pairs[i].1.clone()));
        proof {
            assert(r@ == before.push(r@.last()));
            assert(pairs_view(r@) =~= pairs_view(before).push((pairs@[i as int].0@, pairs@[i as int].1@)));
            assert(pairs_view(pairs@).take(i + 1) =~= pairs_view(pairs@).take(i as int).push(
                pairs_view(pairs@)[i as int],
            ));
        }
        i += 1;
    }
    assert(pairs_view(pairs@).take(pairs.len() as int) =~= pairs_view(pairs@));
    r
}

pub fn copy_texts(texts: &Vec<String>) -> (r: Vec<String>)
    ensures
        strings_view(r@) == strings_view(texts@),
{
    let mut r: Vec<String> = Vec::new();
    let mut i: usize = 0;
    while i < texts.len()
        invariant
            i <= texts.len(),
            strings_view(r@) == strings_view(texts@).take(i as int),
        decreases texts.len() - i,
    {
        let ghost before = r@;
        r.push(texts[i].clone());
        proof {
            assert(strings_view(r@) =~= strings_view(before).push(texts@[i as int]@));
            assert(strings_view(texts@).take(i + 1) =~= strings_view(texts@).take(i as int).push(
                strings_view(texts@)[i as int],
            ));
        }
        i += 1;
    }
    assert(strings_view(texts@).take(texts.len() as int) =~= strings_view(texts@));
    r
}

impl Exercise {
    /// An independent copy.
    pub fn duplicate(&self) -> (e: Exercise)
        ensures
            e@ == self@,
    {
        Exercise {
            set: self.set.clone(),
            name: self.name.clone(),
            title: self.title.clone(),
            language: self.language,
            expression: self.expression.clone(),
            note: match &self.note {
                Some(n) => Some(n.clone()),
                None => None,
            },
            bindings: copy_pairs(&self.bindings),
            evaluation: self.evaluation,
        }
    }

    /// The strategy this question opens in when nothing else decides: its own field, else
    /// the language's own default.
    pub fn mode(&self) -> (mode: EvaluationMode)
        ensures
            mode == spec_mode(self@),
    {
        match self.evaluation {
            Some(mode) => mode,
            None => self.language.default_mode(),
        }
    }

    /// Every binding as `name=value`, separated by spaces.
    pub fn assignments(&self) -> (text: String)
        ensures
            text@ == spec_assignments(self@.bindings),
    {
        let ghost bs = self@.bindings;
        let mut text: String = String::new();
        let mut i: usize = 0;
        while i < self.bindings.len()
            invariant
                i <= self.bindings.len(),
                bs == pairs_view(self.bindings@),
                text@ == spec_assignments(bs.take(i as int)),
            decreases self.bindings.len() - i,
        {
            if i > 0 {
                text.append(" ");
            }
            text.append(self.bindings[i].0.as_str());
            text.append("=");
            text.append(self.bindings[i].1.as_str());
            proof {
                let next = bs.take(i + 1);
                assert(next.drop_last() =~= bs.take(i as int));
                assert(next.last() == (self.bindings@[i as int].0@, self.bindings@[i as int].1@));
                if i == 0 {
                    assert(bs.take(0) =~= Seq::<(Seq<char>, Seq<char>)>::empty());
                    assert(text@ =~= spec_assignments(next));
                } else {
                    assert(text@ =~= spec_assignments(next));
                }
            }
            i += 1;
        }
        assert(bs.take(self.bindings.len() as int) =~= bs);
        text
    }

    /// The prose a student reads with the question, led by its assignments where it has any.
    pub fn prompt(&self) -> (text: String)
        ensures
            text@ == spec_prompt(self@),
    {
        if self.bindings.len() == 0 {
            match &self.note {
                Some(note) => note.clone(),
                None => String::new(),
            }
        } else {
            let mut text: String = String::from_str("赋值：");
            let assignments: String = self.assignments();
            text.append(assignments.as_str());
            text.append("。");
            match &self.note {
                Some(note) => text.append(note.as_str()),
                None => {},
            }
            text
        }
    }
}

impl ProofQuestion {
    /// An independent copy.
    pub fn duplicate(&self) -> (q: ProofQuestion)
        ensures
            q@ == self@,
    {
        ProofQuestion {
            set: self.set.clone(),
            name: self.name.clone(),
            title: self.title.clone(),
            note: match &self.note {
                Some(n) => Some(n.clone()),
                None => None,
            },
            premises: copy_texts(&self.premises),
            conclusion: self.conclusion.clone(),
        }
    }

    /// The proof this question opens, checked by the formula grammar.
    pub fn to_proof(&self) -> (result: Result<Proof, ParseError>)
        ensures
            match spec_question_proof(self@) {
                Ok(p) => result matches Ok(proof) && proof@ == p && proof.wf(),
                Err(e) => result matches Err(err) && err.0@ == e,
            },
    {
        let ghost sources = self@.premises;
        let mut premises: Vec<Formula> = Vec::new();
        let mut i: usize = 0;
        proof {
            assert(sources.take(0) =~= Seq::<Seq<char>>::empty());
            assert(formulas_view(premises@) =~= Seq::<crate::logic::formula::FormulaV>::empty());
        }
        while i < self.premises.len()
            invariant
                i <= self.premises.len(),
                sources == strings_view(self.premises@),
                parse_all(sources.take(i as int)) == Ok::<Seq<crate::logic::formula::FormulaV>, Seq<char>>(
                    formulas_view(premises@),
                ),
            decreases self.premises.len() - i,
        {
            proof {
                assert(sources.take(i + 1).drop_last() =~= sources.take(i as int));
                assert(sources.take(i + 1).last() == self.premises@[i as int]@);
            }
            let ghost before = premises@;
            match parse_formula(self.premises[i].as_str()) {
                Ok(f) => {
                    premises.push(f);
                    proof {
                        assert(formulas_view(premises@) =~= formulas_view(before).push(
                            premises@.last()@,
                        ));
                    }
                },
                Err(e) => {
                    proof {
                        lemma_parse_all_err_stays(sources, (i + 1) as nat);
                    }
                    return Err(e);
                },
            }
            i += 1;
        }
        proof {
            assert(sources.take(self.premises.len() as int) =~= sources);
        }
        let goal: Formula = parse_formula(self.conclusion.as_str())?;
        Ok(Proof::new(premises, goal))
    }

    /// Premises and conclusion on one line, for a listing.
    pub fn sequent(&self) -> (text: String)
        ensures
            text@ == spec_sequent(self@),
    {
        let ghost ps = self@.premises;
        let mut text: String = String::new();
        let mut i: usize = 0;
        while i < self.premises.len()
            invariant
                i <= self.premises.len(),
                ps == strings_view(self.premises@),
                text@ == joined(ps.take(i as int), "，"@),
            decreases self.premises.len() - i,
        {
            if i > 0 {
                text.append("，");
            }
            text.append(self.premises[i].as_str());
            proof {
                let next = ps.take(i + 1);
                assert(next.drop_last() =~= ps.take(i as int));
                if i == 0 {
                    assert(text@ =~= joined(next, "，"@));
                } else {
                    assert(text@ =~= joined(next, "，"@));
                }
            }
            i += 1;
        }
        assert(ps.take(self.premises.len() as int) =~= ps);
        if self.premises.len() == 0 {
            text.append("⊢ ");
            assert(text@ =~= "⊢ "@) by {
                assert(joined(ps, "，"@) =~= Seq::<char>::empty());
            }
        } else {
            text.append(" ⊢ ");
        }
        text.append(self.conclusion.as_str());
        text
    }
}

/// Once a premise fails to parse, reading more premises keeps that error.
pub proof fn lemma_parse_all_err_stays(sources: Seq<Seq<char>>, n: nat)
    requires
        n <= sources.len(),
        parse_all(sources.take(n as int)) is Err,
    ensures
        parse_all(sources) == parse_all(sources.take(n as int)),
    decreases sources.len() - n,
{
    if n == sources.len() {
        assert(sources.take(n as int) =~= sources);
    } else {
        assert(sources.take((n + 1) as int).drop_last() =~= sources.take(n as int));
        lemma_parse_all_err_stays(sources, n + 1);
    }
}

impl Question {
    /// An independent copy.
    pub fn duplicate(&self) -> (q: Question)
        ensures
            q@ == self@,
    {
        match self {
            Question::Evaluation(e) => Question::Evaluation(e.duplicate()),
            Question::Proof(p) => Question::Proof(p.duplicate()),
        }
    }

    pub fn name(&self) -> (name: &str)
        ensures
            name@ == question_name(self@),
    {
        match self {
            Question::Evaluation(e) => e.name.as_str(),
            Question::Proof(p) => p.name.as_str(),
        }
    }

    pub fn title(&self) -> (title: &str)
        ensures
            title@ == question_title(self@),
    {
        match self {
            Question::Evaluation(e) => e.title.as_str(),
            Question::Proof(p) => p.title.as_str(),
        }
    }

    /// The set the question came from; empty for one that belongs to none.
    pub fn set(&self) -> (set: &str)
        ensures
            set@ == question_set(self@),
    {
        match self {
            Question::Evaluation(e) => e.set.as_str(),
            Question::Proof(p) => p.set.as_str(),
        }
    }

    /// Natural deduction is propositional, so a proof question is a logic question.
    pub fn language(&self) -> (language: Language)
        ensures
            language == question_language(self@),
    {
        match self {
            Question::Evaluation(e) => e.language,
            Question::Proof(_) => Language::Logic,
        }
    }

    pub fn evaluation(&self) -> (exercise: Option<&Exercise>)
        ensures
            match self {
                Question::Evaluation(e) => exercise == Some(e),
                Question::Proof(_) => exercise is None,
            },
    {
        match self {
            Question::Evaluation(e) => Some(e),
            Question::Proof(_) => None,
        }
    }
}

/// A set that was read and still cannot be practised, located well enough to fix: the
/// question at fault (or `None` for the set itself), the field to correct (empty where the
/// whole file is at fault), and why.
#[derive(Debug)]
pub struct Invalid {
    pub question: Option<String>,
    pub field: &'static str,
    pub message: String,
}

pub struct InvalidV {
    pub question: Option<Seq<char>>,
    pub field: Seq<char>,
    pub message: Seq<char>,
}

impl View for Invalid {
    type V = InvalidV;

    open spec fn view(&self) -> InvalidV {
        InvalidV {
            question: match self.question {
                Some(q) => Some(q@),
                None => None,
            },
            field: self.field@,
            message: self.message@,
        }
    }
}

pub open spec fn set_fault(field: Seq<char>, message: Seq<char>) -> InvalidV {
    InvalidV { question: None, field, message }
}

pub open spec fn question_fault(id: Seq<char>, field: Seq<char>, message: Seq<char>) -> InvalidV {
    InvalidV { question: Some(id), field, message }
}

/// The sentence that locates a fault for whoever edits the set.
pub open spec fn spec_invalid_text(v: InvalidV) -> Seq<char> {
    match v.question {
        Some(id) => "题目 "@ + id + " 的 "@ + v.field + " 字段："@ + v.message,
        None => if v.field.len() == 0 {
            "题集文件："@ + v.message
        } else {
            "题集的 "@ + v.field + " 字段："@ + v.message
        },
    }
}

impl Invalid {
    fn for_set(field: &'static str, message: String) -> (invalid: Invalid)
        ensures
            invalid@ == set_fault(field@, message@),
    {
        Invalid { question: None, field, message }
    }

    fn for_question(id: &str, field: &'static str, message: String) -> (invalid: Invalid)
        ensures
            invalid@ == question_fault(id@, field@, message@),
    {
        Invalid { question: Some(String::from_str(id)), field, message }
    }

    /// The sentence that locates this fault.
    pub fn text(&self) -> (text: String)
        ensures
            text@ == spec_invalid_text(self@),
    {
        match &self.question {
            Some(id) => {
                let mut text: String = String::from_str("题目 ");
                text.append(id.as_str());
                text.append(" 的 ");
                text.append(self.field);
                text.append(" 字段：");
                text.append(self.message.as_str());
                text
            },
            None => {
                if self.field.is_empty() {
                    let mut text: String = String::from_str("题集文件：");
                    text.append(self.message.as_str());
                    text
                } else {
                    let mut text: String = String::from_str("题集的 ");
                    text.append(self.field);
                    text.append(" 字段：");
                    text.append(self.message.as_str());
                    text
                }
            },
        }
    }
}

/// What the caller found when it read an evaluation question with its own language
/// machinery: for a Python question, whether each binding literal (in order) is one Python
/// reads, and whether the question's session opens in its own strategy.
#[derive(Debug)]
pub struct Reading {
    pub literals: Vec<bool>,
    pub session: Result<(), ParseError>,
}

pub struct ReadingV {
    pub literals: Seq<bool>,
    pub session: Option<Seq<char>>,
}

impl View for Reading {
    type V = ReadingV;

    open spec fn view(&self) -> ReadingV {
        ReadingV {
            literals: self.literals@,
            session: match self.session {
                Ok(_) => None,
                Err(e) => Some(e.0@),
            },
        }
    }
}

pub open spec fn readings_view(rs: Seq<Reading>) -> Seq<ReadingV> {
    rs.map_values(|r: Reading| r@)
}

/// Whether a binding literal is one the question's language reads: Python's answer comes
/// from the reading, a truth value is read here.
pub open spec fn literal_readable(language: Language, literal: Seq<char>, literals: Seq<bool>, k: int) -> bool {
    match language {
        Language::Python => k < literals.len() && literals[k],
        Language::Logic => spec_truth(literal) is Some,
    }
}

/// The first binding from `k` on whose literal is not readable.
pub open spec fn first_bad_binding(e: ExerciseV, literals: Seq<bool>, k: int) -> Option<int>
    decreases e.bindings.len() - k,
{
    if k < 0 || k >= e.bindings.len() {
        None
    } else if !literal_readable(e.language, e.bindings[k].1, literals, k) {
        Some(k)
    } else {
        first_bad_binding(e, literals, k + 1)
    }
}

pub open spec fn bad_binding_message(e: ExerciseV, k: int) -> Seq<char> {
    e.bindings[k].0 + " = \""@ + e.bindings[k].1 + "\" 不是可用的取值；这里要写"@ + spec_literal_form(
        e.language,
    ) + "。"@
}

/// An evaluation question a student can be given: its bindings are listed by name with no
/// name twice, every literal is one its language reads, and its session opens.
pub open spec fn exercise_fault(e: ExerciseV, r: ReadingV) -> Option<InvalidV> {
    if !e.wf() {
        Some(question_fault(e.name, "bindings"@, unordered_bindings()))
    } else {
        match first_bad_binding(e, r.literals, 0) {
            Some(k) => Some(question_fault(e.name, "bindings"@, bad_binding_message(e, k))),
            None => match r.session {
                Some(message) => Some(question_fault(e.name, "expression"@, message)),
                None => None,
            },
        }
    }
}

/// Why bindings that repeat a name, or are not listed by name, are refused.
pub open spec fn unordered_bindings() -> Seq<char> {
    "赋值必须按名称排列，每个名称只出现一次。"@
}

/// The first premise from `k` on that does not parse, with the parser's reason.
pub open spec fn first_bad_premise(premises: Seq<Seq<char>>, k: int) -> Option<(int, Seq<char>)>
    decreases premises.len() - k,
{
    if k < 0 || k >= premises.len() {
        None
    } else {
        match spec_parse_formula(premises[k]) {
            Err(e) => Some((k, e)),
            Ok(_) => first_bad_premise(premises, k + 1),
        }
    }
}

pub open spec fn proof_fault(q: ProofQuestionV) -> Option<InvalidV> {
    if q.premises.len() > MAX_PREMISES {
        Some(
            question_fault(
                q.name,
                "premises"@,
                "证明题有 "@ + decimal(q.premises.len()) + " 条前提，超过上限 64 条。"@,
            ),
        )
    } else {
        match first_bad_premise(q.premises, 0) {
            Some((k, e)) => Some(
                question_fault(
                    q.name,
                    "premises"@,
                    "第 "@ + decimal((k + 1) as nat) + " 条「"@ + q.premises[k] + "」："@ + e,
                ),
            ),
            None => match spec_parse_formula(q.conclusion) {
                Err(e) => Some(question_fault(q.name, "conclusion"@, e)),
                Ok(_) => None,
            },
        }
    }
}

pub open spec fn question_check(q: QuestionV, r: ReadingV) -> Option<InvalidV> {
    if blank(question_title(q)) {
        Some(question_fault(question_name(q), "title"@, "题目标题不能为空。"@))
    } else {
        match q {
            QuestionV::Evaluation(e) => exercise_fault(e, r),
            QuestionV::Proof(p) => proof_fault(p),
        }
    }
}

/// Some earlier question carries the same ID.
pub open spec fn repeats_earlier(qs: Seq<QuestionV>, i: int) -> bool {
    exists|j: int| 0 <= j < i && #[trigger] question_name(qs[j]) == question_name(qs[i])
}

/// The first question from `i` on that cannot be practised.
pub open spec fn item_fault(qs: Seq<QuestionV>, rs: Seq<ReadingV>, i: int) -> Option<InvalidV>
    decreases qs.len() - i,
{
    if i < 0 || i >= qs.len() {
        None
    } else if blank(question_name(qs[i])) {
        Some(question_fault("#"@ + decimal((i + 1) as nat), "name"@, "题目名称不能为空。"@))
    } else if repeats_earlier(qs, i) {
        Some(question_fault(question_name(qs[i]), "name"@, "题目名称在同一题集内重复。"@))
    } else {
        match question_check(qs[i], rs[i]) {
            Some(fault) => Some(fault),
            None => item_fault(qs, rs, i + 1),
        }
    }
}

/// What keeps a set from being practised, if anything: its own ID, title and size first,
/// then its questions in order.
pub open spec fn spec_set_fault(
    name: Seq<char>,
    title: Seq<char>,
    qs: Seq<QuestionV>,
    rs: Seq<ReadingV>,
) -> Option<InvalidV> {
    if blank(name) {
        Some(set_fault("name"@, "题集名称不能为空：进度按它保存，换一个名称就是另一套题。"@))
    } else if blank(title) {
        Some(set_fault("title"@, "题集标题不能为空。"@))
    } else if qs.len() == 0 {
        Some(set_fault("questions"@, "题集里没有题目。"@))
    } else if qs.len() > MAX_QUESTIONS {
        Some(
            set_fault(
                "questions"@,
                "题集有 "@ + decimal(qs.len()) + " 道题，超过上限 1024 道。"@,
            ),
        )
    } else {
        item_fault(qs, rs, 0)
    }
}

/// The question with its set stamped.
pub open spec fn stamped(q: QuestionV, set: Seq<char>) -> QuestionV {
    match q {
        QuestionV::Evaluation(e) => QuestionV::Evaluation(ExerciseV { set, ..e }),
        QuestionV::Proof(p) => QuestionV::Proof(ProofQuestionV { set, ..p }),
    }
}

pub open spec fn all_stamped(qs: Seq<QuestionV>, set: Seq<char>) -> Seq<QuestionV> {
    qs.map_values(|q: QuestionV| stamped(q, set))
}

impl Exercise {
    /// The bindings are listed by name with no name twice, every literal is one this
    /// language reads, then the session opens.
    pub fn check(&self, reading: &Reading) -> (result: Result<(), Invalid>)
        ensures
            match exercise_fault(self@, reading@) {
                Some(fault) => result matches Err(e) && e@ == fault,
                None => result is Ok,
            },
    {
        let ghost e = self@;
        let ghost names = e.bindings.map_values(|p: (Seq<char>, Seq<char>)| p.0);
        let mut i: usize = 0;
        while i < self.bindings.len()
            invariant
                i <= self.bindings.len(),
                e == self@,
                names == e.bindings.map_values(|p: (Seq<char>, Seq<char>)| p.0),
                names.len() == self.bindings.len(),
                forall|a: int, b: int| 0 <= a < i && a < b < names.len() ==> text_less(names[a], names[b]),
            decreases self.bindings.len() - i,
        {
            let first: Vec<char> = chars_of(self.bindings[i].0.as_str());
            let mut j: usize = i + 1;
            while j < self.bindings.len()
                invariant
                    i < self.bindings.len(),
                    i + 1 <= j <= self.bindings.len(),
                    e == self@,
                    names == e.bindings.map_values(|p: (Seq<char>, Seq<char>)| p.0),
                    names.len() == self.bindings.len(),
                    first@ == names[i as int],
                    forall|a: int, b: int| 0 <= a < i && a < b < names.len() ==> text_less(names[a], names[b]),
                    forall|b: int| i < b < j ==> text_less(names[i as int], names[b]),
                decreases self.bindings.len() - j,
            {
                let second: Vec<char> = chars_of(self.bindings[j].0.as_str());
                assert(second@ == names[j as int]);
                if !less_text(&first, &second) {
                    assert(!e.wf());
                    return Err(Invalid::for_question(
                        self.name.as_str(),
                        "bindings",
                        String::from_str("赋值必须按名称排列，每个名称只出现一次。"),
                    ));
                }
                j += 1;
            }
            i += 1;
        }
        assert(e.wf());
        let mut k: usize = 0;
        while k < self.bindings.len()
            invariant
                k <= self.bindings.len(),
                e == self@,
                e.wf(),
                first_bad_binding(e, reading@.literals, 0) == first_bad_binding(
                    e,
                    reading@.literals,
                    k as int,
                ),
            decreases self.bindings.len() - k,
        {
            let readable: bool = match self.language {
                Language::Python => k < reading.literals.len() && reading.literals[k],
                Language::Logic => parse_truth(self.bindings[k].1.as_str()).is_ok(),
            };
            if !readable {
                let mut message: String = self.bindings[k].0.clone();
                message.append(" = \"");
                message.append(self.bindings[k].1.as_str());
                message.append("\" 不是可用的取值；这里要写");
                message.append(self.language.literal_form());
                message.append("。");
                return Err(Invalid::for_question(self.name.as_str(), "bindings", message));
            }
            k += 1;
        }
        match &reading.session {
            Ok(()) => Ok(()),
            Err(error) => Err(Invalid::for_question(self.name.as_str(), "expression", error.0.clone())),
        }
    }
}

impl ProofQuestion {
    /// Not too many premises, and every premise and the conclusion parse.
    pub fn check(&self) -> (result: Result<(), Invalid>)
        ensures
            match proof_fault(self@) {
                Some(fault) => result matches Err(e) && e@ == fault,
                None => result is Ok,
            },
    {
        let ghost q = self@;
        if self.premises.len() > MAX_PREMISES {
            let mut message: String = String::from_str("证明题有 ");
            push_decimal(&mut message, self.premises.len());
            message.append(" 条前提，超过上限 64 条。");
            return Err(Invalid::for_question(self.name.as_str(), "premises", message));
        }
        let mut k: usize = 0;
        while k < self.premises.len()
            invariant
                k <= self.premises.len(),
                q == self@,
                self.premises.len() <= MAX_PREMISES,
                first_bad_premise(q.premises, 0) == first_bad_premise(q.premises, k as int),
            decreases self.premises.len() - k,
        {
            match parse_formula(self.premises[k].as_str()) {
                Ok(_) => {},
                Err(error) => {
                    let mut message: String = String::from_str("第 ");
                    push_decimal(&mut message, k + 1);
                    message.append(" 条「");
                    message.append(self.premises[k].as_str());
                    message.append("」：");
                    message.append(error.0.as_str());
                    proof {
                        assert(q.premises[k as int] == self.premises@[k as int]@);
                        assert(first_bad_premise(q.premises, k as int) == Some(
                            (k as int, error.0@),
                        ));
                        assert(message@ =~= "第 "@ + decimal((k + 1) as nat) + " 条「"@
                            + q.premises[k as int] + "」："@ + error.0@);
                    }
                    return Err(Invalid::for_question(self.name.as_str(), "premises", message));
                },
            }
            k += 1;
        }
        match parse_formula(self.conclusion.as_str()) {
            Ok(_) => Ok(()),
            Err(error) => Err(Invalid::for_question(self.name.as_str(), "conclusion", error.0)),
        }
    }
}

impl Question {
    /// A title, then what the question's own type asks.
    pub fn check(&self, reading: &Reading) -> (result: Result<(), Invalid>)
        ensures
            match question_check(self@, reading@) {
                Some(fault) => result matches Err(e) && e@ == fault,
                None => result is Ok,
            },
    {
        if is_blank(self.title()) {
            return Err(
                Invalid::for_question(self.name(), "title", String::from_str("题目标题不能为空。")),
            );
        }
        match self {
            Question::Evaluation(e) => e.check(reading),
            Question::Proof(p) => p.check(),
        }
    }

    /// The same question, belonging to `set`.
    pub fn stamp(&mut self, set: &String)
        ensures
            final(self)@ == stamped(old(self)@, set@),
    {
        match self {
            Question::Evaluation(e) => {
                e.set = set.clone();
            },
            Question::Proof(p) => {
                p.set = set.clone();
            },
        }
    }
}

/// One question set: a stable name, its metadata, and its questions in the order they are
/// practised, each stamped with the set's name.
#[derive(Debug)]
pub struct QuestionSet {
    version: u32,
    /// Stable across edits and moves; saved progress follows this name.
    name: String,
    title: String,
    description: Option<String>,
    questions: Vec<Question>,
}

pub struct QuestionSetV {
    pub version: u32,
    pub name: Seq<char>,
    pub title: Seq<char>,
    pub description: Option<Seq<char>>,
    pub questions: Seq<QuestionV>,
}

impl View for QuestionSet {
    type V = QuestionSetV;

    closed spec fn view(&self) -> QuestionSetV {
        QuestionSetV {
            version: self.version,
            name: self.name@,
            title: self.title@,
            description: match self.description {
                Some(d) => Some(d@),
                None => None,
            },
            questions: questions_view(self.questions@),
        }
    }
}

/// The first question carrying this name.
pub open spec fn spec_find(qs: Seq<QuestionV>, name: Seq<char>) -> Option<int> {
    if exists|k: int| 0 <= k < qs.len() && question_name(#[trigger] qs[k]) == name {
        Some(
            choose|k: int|
                0 <= k < qs.len() && question_name(qs[k]) == name && forall|j: int|
                    0 <= j < k ==> question_name(#[trigger] qs[j]) != name,
        )
    } else {
        None
    }
}

/// The evaluation questions, in the order the set lists them.
pub open spec fn evaluations_of(qs: Seq<QuestionV>) -> Seq<ExerciseV>
    decreases qs.len(),
{
    if qs.len() == 0 {
        Seq::empty()
    } else {
        match qs.last() {
            QuestionV::Evaluation(e) => evaluations_of(qs.drop_last()).push(e),
            QuestionV::Proof(_) => evaluations_of(qs.drop_last()),
        }
    }
}

/// The evaluation questions of one language, in the order the set lists them.
pub open spec fn evaluations_in(qs: Seq<QuestionV>, language: Language) -> Seq<ExerciseV>
    decreases qs.len(),
{
    if qs.len() == 0 {
        Seq::empty()
    } else {
        match qs.last() {
            QuestionV::Evaluation(e) => if e.language == language {
                evaluations_in(qs.drop_last(), language).push(e)
            } else {
                evaluations_in(qs.drop_last(), language)
            },
            QuestionV::Proof(_) => evaluations_in(qs.drop_last(), language),
        }
    }
}

/// The questions of one language, evaluation and proof alike, in the set's order.
pub open spec fn questions_in(qs: Seq<QuestionV>, language: Language) -> Seq<QuestionV>
    decreases qs.len(),
{
    if qs.len() == 0 {
        Seq::empty()
    } else if question_language(qs.last()) == language {
        questions_in(qs.drop_last(), language).push(qs.last())
    } else {
        questions_in(qs.drop_last(), language)
    }
}

pub open spec fn exercises_view(es: Seq<Exercise>) -> Seq<ExerciseV> {
    es.map_values(|e: Exercise| e@)
}

pub open spec fn spec_size_fault(bytes: nat) -> Option<InvalidV> {
    if bytes > MAX_BYTES {
        Some(
            set_fault(
                ""@,
                "题集有 "@ + decimal(bytes) + " 字节，超过上限 1048576 字节。"@,
            ),
        )
    } else {
        None
    }
}

pub open spec fn spec_version_fault(version: u32) -> Option<InvalidV> {
    if version != FORMAT_VERSION {
        Some(
            set_fault(
                "version"@,
                "这个程序读 version = 1 的题集，文件写的是 "@ + decimal(version as nat) + "。"@,
            ),
        )
    } else {
        None
    }
}

pub open spec fn builtin_claimed() -> InvalidV {
    set_fault("id"@, "题集 ID builtin 留给内置题集；进度按 ID 保存，请另取一个 ID。"@)
}

impl QuestionSet {
    /// A set's text may weigh at most `MAX_BYTES`; checked before it is read at all.
    pub fn check_size(bytes: usize) -> (result: Result<(), Invalid>)
        ensures
            match spec_size_fault(bytes as nat) {
                Some(fault) => result matches Err(e) && e@ == fault,
                None => result is Ok,
            },
    {
        if bytes > MAX_BYTES {
            let mut message: String = String::from_str("题集有 ");
            push_decimal(&mut message, bytes);
            message.append(" 字节，超过上限 1048576 字节。");
            Err(Invalid::for_set("", message))
        } else {
            Ok(())
        }
    }

    /// The version a set declares is read before anything else, and only this build's
    /// format is accepted.
    pub fn check_version(version: u32) -> (result: Result<(), Invalid>)
        ensures
            match spec_version_fault(version) {
                Some(fault) => result matches Err(e) && e@ == fault,
                None => result is Ok,
            },
    {
        if version != FORMAT_VERSION {
            let mut message: String = String::from_str("这个程序读 version = 1 的题集，文件写的是 ");
            push_decimal(&mut message, version as usize);
            message.append("。");
            Err(Invalid::for_set("version", message))
        } else {
            Ok(())
        }
    }

    /// The set these fields describe: every question stamped with the set's ID, then the
    /// checks a set must pass, with `readings[i]` what the caller found reading question
    /// `i` in its language.
    pub fn assemble(
        version: u32,
        name: String,
        title: String,
        description: Option<String>,
        questions: Vec<Question>,
        readings: &Vec<Reading>,
    ) -> (result: Result<QuestionSet, Invalid>)
        requires
            readings.len() == questions.len(),
        ensures
            match spec_set_fault(name@, title@, questions_view(questions@), readings_view(readings@)) {
                Some(fault) => result matches Err(e) && e@ == fault,
                None => result matches Ok(set) && set@ == (QuestionSetV {
                    version,
                    name: name@,
                    title: title@,
                    description: match description {
                        Some(d) => Some(d@),
                        None => None,
                    },
                    questions: all_stamped(questions_view(questions@), name@),
                }),
            },
    {
        let ghost given = questions_view(questions@);
        let ghost rs = readings_view(readings@);
        let mut questions = questions;
        let mut i: usize = 0;
        while i < questions.len()
            invariant
                i <= questions.len(),
                questions.len() == given.len(),
                forall|k: int| 0 <= k < i ==> questions@[k]@ == stamped(given[k], name@),
                forall|k: int| i <= k < questions.len() ==> questions@[k]@ == given[k],
            decreases questions.len() - i,
        {
            let mut question: Question = questions.remove(i);
            question.stamp(&name);
            questions.insert(i, question);
            i += 1;
        }
        proof {
            assert(questions_view(questions@) =~= all_stamped(given, name@));
            lemma_stamp_keeps_faults(given, name@, rs);
        }
        let set = QuestionSet { version, name, title, description, questions };
        match set.validate(readings) {
            Ok(()) => Ok(set),
            Err(e) => Err(e),
        }
    }

    fn validate(&self, readings: &Vec<Reading>) -> (result: Result<(), Invalid>)
        requires
            readings.len() == self.questions.len(),
        ensures
            match spec_set_fault(self@.name, self@.title, self@.questions, readings_view(readings@)) {
                Some(fault) => result matches Err(e) && e@ == fault,
                None => result is Ok,
            },
    {
        let ghost qs = self@.questions;
        let ghost rs = readings_view(readings@);
        if is_blank(self.name.as_str()) {
            return Err(
                Invalid::for_set(
                    "name",
                    String::from_str("题集名称不能为空：进度按它保存，换一个名称就是另一套题。"),
                ),
            );
        }
        if is_blank(self.title.as_str()) {
            return Err(Invalid::for_set("title", String::from_str("题集标题不能为空。")));
        }
        if self.questions.len() == 0 {
            return Err(Invalid::for_set("questions", String::from_str("题集里没有题目。")));
        }
        if self.questions.len() > MAX_QUESTIONS {
            let mut message: String = String::from_str("题集有 ");
            push_decimal(&mut message, self.questions.len());
            message.append(" 道题，超过上限 1024 道。");
            return Err(Invalid::for_set("questions", message));
        }
        let mut i: usize = 0;
        assert(spec_set_fault(self@.name, self@.title, qs, rs) == item_fault(qs, rs, 0));
        while i < self.questions.len()
            invariant
                i <= self.questions.len(),
                self.questions.len() <= MAX_QUESTIONS,
                readings.len() == self.questions.len(),
                qs == self@.questions,
                rs == readings_view(readings@),
                spec_set_fault(self@.name, self@.title, qs, rs) == item_fault(qs, rs, 0),
                item_fault(qs, rs, 0) == item_fault(qs, rs, i as int),
            decreases self.questions.len() - i,
        {
            let question: &Question = &self.questions[i];
            assert(qs[i as int] == question@);
            if is_blank(question.name()) {
                let mut locator: String = String::from_str("#");
                push_decimal(&mut locator, i + 1);
                proof {
                    assert(locator@ =~= "#"@ + decimal((i + 1) as nat));
                }
                return Err(
                    Invalid::for_question(
                        locator.as_str(),
                        "name",
                        String::from_str("题目名称不能为空。"),
                    ),
                );
            }
            let mut j: usize = 0;
            while j < i
                invariant
                    j <= i < self.questions.len(),
                    qs == self@.questions,
                    rs == readings_view(readings@),
                    spec_set_fault(self@.name, self@.title, qs, rs) == item_fault(qs, rs, i as int),
                    !blank(question_name(qs[i as int])),
                    question@ == qs[i as int],
                    forall|k: int| 0 <= k < j ==> question_name(#[trigger] qs[k]) != question_name(
                        qs[i as int],
                    ),
                decreases i - j,
            {
                assert(qs[j as int] == self.questions@[j as int]@);
                if crate::text::same_text(self.questions[j].name(), question.name()) {
                    proof {
                        assert(repeats_earlier(qs, i as int));
                    }
                    return Err(
                        Invalid::for_question(
                            question.name(),
                            "name",
                            String::from_str("题目名称在同一题集内重复。"),
                        ),
                    );
                }
                j += 1;
            }
            assert(!repeats_earlier(qs, i as int));
            assert(rs[i as int] == readings@[i as int]@);
            match question.check(&readings[i]) {
                Ok(()) => {},
                Err(e) => {
                    return Err(e);
                },
            }
            i += 1;
        }
        Ok(())
    }

    /// A set read from outside the program: the same checks, and it may not call itself
    /// the embedded set.
    pub fn import(set: QuestionSet) -> (result: Result<QuestionSet, Invalid>)
        ensures
            set@.name == BUILTIN_SET@ ==> (result matches Err(e) && e@ == builtin_claimed()),
            set@.name != BUILTIN_SET@ ==> (result matches Ok(s) && s@ == set@),
    {
        if crate::text::same_text(set.name.as_str(), BUILTIN_SET) {
            return Err(
                Invalid::for_set(
                    "id",
                    String::from_str(
                        "题集 ID builtin 留给内置题集；进度按 ID 保存，请另取一个 ID。",
                    ),
                ),
            );
        }
        Ok(set)
    }

    pub fn version(&self) -> (version: u32)
        ensures
            version == self@.version,
    {
        self.version
    }

    /// The set's stable name, which saved progress follows.
    pub fn name(&self) -> (name: &str)
        ensures
            name@ == self@.name,
    {
        self.name.as_str()
    }

    pub fn title(&self) -> (title: &str)
        ensures
            title@ == self@.title,
    {
        self.title.as_str()
    }

    pub fn description(&self) -> (description: Option<&str>)
        ensures
            match self@.description {
                Some(d) => description matches Some(s) && s@ == d,
                None => description is None,
            },
    {
        match &self.description {
            Some(d) => Some(d.as_str()),
            None => None,
        }
    }

    pub fn questions(&self) -> (questions: &[Question])
        ensures
            questions_view(questions@) == self@.questions,
    {
        self.questions.as_slice()
    }

    /// The first question carrying this name.
    pub fn find(&self, name: &str) -> (found: Option<&Question>)
        ensures
            match spec_find(self@.questions, name@) {
                Some(k) => found matches Some(q) && q@ == self@.questions[k],
                None => found is None,
            },
    {
        let ghost qs = self@.questions;
        let mut k: usize = 0;
        while k < self.questions.len()
            invariant
                k <= self.questions.len(),
                qs == self@.questions,
                forall|j: int| 0 <= j < k ==> question_name(#[trigger] qs[j]) != name@,
            decreases self.questions.len() - k,
        {
            assert(qs[k as int] == self.questions@[k as int]@);
            if crate::text::same_text(self.questions[k].name(), name) {
                proof {
                    let c = choose|c: int|
                        0 <= c < qs.len() && question_name(qs[c]) == name@ && forall|j: int|
                            0 <= j < c ==> question_name(#[trigger] qs[j]) != name@;
                    assert(0 <= c < qs.len() && question_name(qs[c]) == name@ && forall|j: int|
                        0 <= j < c ==> question_name(#[trigger] qs[j]) != name@) by {
                        assert(0 <= k < qs.len() && question_name(qs[k as int]) == name@ && forall|
                            j: int,
                        | 0 <= j < k ==> question_name(#[trigger] qs[j]) != name@);
                    }
                    if c < k {
                        assert(question_name(qs[c]) != name@);
                    }
                    if k < c {
                        assert(question_name(qs[k as int]) != name@);
                    }
                }
                return Some(&self.questions[k]);
            }
            k += 1;
        }
        None
    }

    /// Every evaluation question, in the order the set lists them.
    pub fn exercises(&self) -> (exercises: Vec<Exercise>)
        ensures
            exercises_view(exercises@) == evaluations_of(self@.questions),
    {
        let ghost qs = self@.questions;
        let mut found: Vec<Exercise> = Vec::new();
        let mut k: usize = 0;
        while k < self.questions.len()
            invariant
                k <= self.questions.len(),
                qs == self@.questions,
                exercises_view(found@) == evaluations_of(qs.take(k as int)),
            decreases self.questions.len() - k,
        {
            let ghost before = found@;
            proof {
                assert(qs.take(k + 1).drop_last() =~= qs.take(k as int));
                assert(qs.take(k + 1).last() == self.questions@[k as int]@);
            }
            match &self.questions[k] {
                Question::Evaluation(e) => {
                    found.push(e.duplicate());
                    assert(exercises_view(found@) =~= exercises_view(before).push(e@));
                },
                Question::Proof(_) => {},
            }
            k += 1;
        }
        assert(qs.take(self.questions.len() as int) =~= qs);
        found
    }

    /// The evaluation questions of one language, in the order the set lists them.
    pub fn evaluations(&self, language: Language) -> (exercises: Vec<Exercise>)
        ensures
            exercises_view(exercises@) == evaluations_in(self@.questions, language),
    {
        let ghost qs = self@.questions;
        let mut found: Vec<Exercise> = Vec::new();
        let mut k: usize = 0;
        while k < self.questions.len()
            invariant
                k <= self.questions.len(),
                qs == self@.questions,
                exercises_view(found@) == evaluations_in(qs.take(k as int), language),
            decreases self.questions.len() - k,
        {
            let ghost before = found@;
            proof {
                assert(qs.take(k + 1).drop_last() =~= qs.take(k as int));
                assert(qs.take(k + 1).last() == self.questions@[k as int]@);
            }
            match &self.questions[k] {
                Question::Evaluation(e) => {
                    if e.language == language {
                        found.push(e.duplicate());
                        assert(exercises_view(found@) =~= exercises_view(before).push(e@));
                    }
                },
                Question::Proof(_) => {},
            }
            k += 1;
        }
        assert(qs.take(self.questions.len() as int) =~= qs);
        found
    }
    /// The questions of one language, evaluation and proof alike, in the set's order.
    pub fn of_language(&self, language: Language) -> (questions: Vec<Question>)
        ensures
            questions_view(questions@) == questions_in(self@.questions, language),
    {
        let ghost qs = self@.questions;
        let mut found: Vec<Question> = Vec::new();
        let mut k: usize = 0;
        while k < self.questions.len()
            invariant
                k <= self.questions.len(),
                qs == self@.questions,
                questions_view(found@) == questions_in(qs.take(k as int), language),
            decreases self.questions.len() - k,
        {
            let ghost before = found@;
            proof {
                assert(qs.take(k + 1).drop_last() =~= qs.take(k as int));
                assert(qs.take(k + 1).last() == self.questions@[k as int]@);
            }
            if self.questions[k].language() == language {
                found.push(self.questions[k].duplicate());
                assert(questions_view(found@) =~= questions_view(before).push(qs[k as int]));
            }
            k += 1;
        }
        assert(qs.take(self.questions.len() as int) =~= qs);
        found
    }

}

proof fn lemma_item_fault_none(qs: Seq<QuestionV>, rs: Seq<ReadingV>, i: int, k: int)
    requires
        0 <= i <= k < qs.len(),
        item_fault(qs, rs, i) is None,
    ensures
        question_check(qs[k], rs[k]) is None,
    decreases k - i,
{
    if i < k {
        lemma_item_fault_none(qs, rs, i + 1, k);
    }
}

/// Every evaluation question of a set that assembles lists its bindings by name, each name
/// once, as a map of names walks; so its assignments read in alphabetical order.
pub proof fn law_assembled_questions_bind_by_name(
    name: Seq<char>,
    title: Seq<char>,
    qs: Seq<QuestionV>,
    rs: Seq<ReadingV>,
    i: int,
)
    requires
        spec_set_fault(name, title, qs, rs) is None,
        0 <= i < qs.len(),
        qs[i] is Evaluation,
    ensures
        all_stamped(qs, name)[i] matches QuestionV::Evaluation(e) && e.wf(),
{
    lemma_item_fault_none(qs, rs, 0, i);
}

/// Stamping a set name changes no ID, title or check a question answers to.
pub proof fn lemma_stamp_keeps_faults(qs: Seq<QuestionV>, set: Seq<char>, rs: Seq<ReadingV>)
    ensures
        forall|id: Seq<char>, title: Seq<char>|
            #![trigger spec_set_fault(id, title, all_stamped(qs, set), rs)]
            spec_set_fault(id, title, all_stamped(qs, set), rs) == spec_set_fault(id, title, qs, rs),
{
    let st = all_stamped(qs, set);
    assert forall|i: int| 0 <= i < qs.len() implies question_name(#[trigger] st[i]) == question_name(
        qs[i],
    ) && question_check(st[i], rs[i]) == question_check(qs[i], rs[i]) by {
        match qs[i] {
            QuestionV::Evaluation(e) => {
                let s = ExerciseV { set, ..e };
                assert(first_bad_binding(s, rs[i].literals, 0) == first_bad_binding(e, rs[i].literals, 0)) by {
                    lemma_first_bad_binding_ignores_set(e, set, rs[i].literals, 0);
                }
            },
            QuestionV::Proof(_) => {},
        }
    }
    lemma_item_fault_stamped(qs, set, rs, 0);
}

proof fn lemma_first_bad_binding_ignores_set(e: ExerciseV, set: Seq<char>, literals: Seq<bool>, k: int)
    ensures
        first_bad_binding(ExerciseV { set, ..e }, literals, k) == first_bad_binding(e, literals, k),
    decreases e.bindings.len() - k,
{
    if 0 <= k < e.bindings.len() {
        lemma_first_bad_binding_ignores_set(e, set, literals, k + 1);
    }
}

proof fn lemma_item_fault_stamped(qs: Seq<QuestionV>, set: Seq<char>, rs: Seq<ReadingV>, i: int)
    requires
        forall|k: int|
            0 <= k < qs.len() ==> question_name(#[trigger] all_stamped(qs, set)[k]) == question_name(
                qs[k],
            ) && question_check(all_stamped(qs, set)[k], rs[k]) == question_check(qs[k], rs[k]),
    ensures
        item_fault(all_stamped(qs, set), rs, i) == item_fault(qs, rs, i),
    decreases qs.len() - i,
{
    let st = all_stamped(qs, set);
    if 0 <= i < qs.len() {
        lemma_item_fault_stamped(qs, set, rs, i + 1);
        assert(question_name(st[i]) == question_name(qs[i]));
        if repeats_earlier(qs, i) {
            let j = choose|j: int| 0 <= j < i && #[trigger] question_name(qs[j]) == question_name(qs[i]);
            assert(question_name(st[j]) == question_name(qs[j]));
            assert(repeats_earlier(st, i));
        }
        if repeats_earlier(st, i) {
            let j = choose|j: int| 0 <= j < i && #[trigger] question_name(st[j]) == question_name(st[i]);
            assert(question_name(st[j]) == question_name(qs[j]));
            assert(repeats_earlier(qs, i));
        }
    }
}

} // verus!
