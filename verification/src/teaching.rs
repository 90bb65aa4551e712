//! The vocabulary both teaching languages share: the evaluation strategy, the language
//! names, the errors a parser or a step raises, and the typed feedback a student reads.

use vstd::prelude::*;

use crate::text::same_text;

verus! {

/// How a question is evaluated: short circuit, or every operand first (the teaching
/// variant a student switches to, or a question asks for).
#[derive(Clone, Copy, Debug, PartialEq, Eq, Structural)]
pub enum EvaluationMode {
    ShortCircuit,
    Eager,
}

pub open spec fn spec_mode_label(mode: EvaluationMode) -> Seq<char> {
    match mode {
        EvaluationMode::ShortCircuit => "短路开启"@,
        EvaluationMode::Eager => "短路关闭 · 全部求值"@,
    }
}

pub open spec fn spec_mode_key(mode: EvaluationMode) -> Seq<char> {
    match mode {
        EvaluationMode::ShortCircuit => "short-circuit"@,
        EvaluationMode::Eager => "eager"@,
    }
}

pub open spec fn spec_toggled(mode: EvaluationMode) -> EvaluationMode {
    match mode {
        EvaluationMode::ShortCircuit => EvaluationMode::Eager,
        EvaluationMode::Eager => EvaluationMode::ShortCircuit,
    }
}

impl EvaluationMode {
    /// The strategy a question opens in when nothing chose one.
    pub fn default_mode() -> (mode: Self)
        ensures
            mode == EvaluationMode::ShortCircuit,
    {
        EvaluationMode::ShortCircuit
    }

    pub fn label(self) -> (label: &'static str)
        ensures
            label@ == spec_mode_label(self),
    {
        match self {
            EvaluationMode::ShortCircuit => "短路开启",
            EvaluationMode::Eager => "短路关闭 · 全部求值",
        }
    }

    /// Part of every saved progress key.
    pub fn key(self) -> (key: &'static str)
        ensures
            key@ == spec_mode_key(self),
    {
        match self {
            EvaluationMode::ShortCircuit => "short-circuit",
            EvaluationMode::Eager => "eager",
        }
    }

    pub fn toggled(self) -> (mode: Self)
        ensures
            mode == spec_toggled(self),
            mode != self,
    {
        match self {
            EvaluationMode::ShortCircuit => EvaluationMode::Eager,
            EvaluationMode::Eager => EvaluationMode::ShortCircuit,
        }
    }
}

/// Switching the strategy twice gives back the one a student started with.
pub proof fn law_toggle_twice(mode: EvaluationMode)
    ensures
        spec_toggled(spec_toggled(mode)) == mode,
{
}

/// The two strategies keep apart in the progress they key: their keys differ.
pub proof fn law_mode_keys_differ()
    ensures
        spec_mode_key(EvaluationMode::ShortCircuit) != spec_mode_key(EvaluationMode::Eager),
{
    reveal_strlit("short-circuit");
    reveal_strlit("eager");
    assert(spec_mode_key(EvaluationMode::ShortCircuit).len() != spec_mode_key(
        EvaluationMode::Eager,
    ).len());
}

/// The teaching languages.
#[derive(Clone, Copy, Debug, PartialEq, Eq, Structural)]
pub enum Language {
    Python,
    Logic,
}

pub open spec fn spec_language_label(language: Language) -> Seq<char> {
    match language {
        Language::Python => "Python 运算练习"@,
        Language::Logic => "命题逻辑"@,
    }
}

pub open spec fn spec_language_key(language: Language) -> Seq<char> {
    match language {
        Language::Python => "python"@,
        Language::Logic => "logic"@,
    }
}

pub open spec fn spec_from_key(key: Seq<char>) -> Option<Language> {
    if key == "python"@ {
        Some(Language::Python)
    } else if key == "logic"@ {
        Some(Language::Logic)
    } else {
        None
    }
}

pub open spec fn spec_literal_form(language: Language) -> Seq<char> {
    match language {
        Language::Python => "Python 源码字面量，例如 2、-0.0、True、None"@,
        Language::Logic => "真值 True / False（也接受 true/false、T / F、真 / 假）"@,
    }
}

/// Python opens with short circuit on, propositional logic with every operand evaluated.
pub open spec fn spec_default_mode(language: Language) -> EvaluationMode {
    match language {
        Language::Python => EvaluationMode::ShortCircuit,
        Language::Logic => EvaluationMode::Eager,
    }
}

impl Language {
    pub fn label(self) -> (label: &'static str)
        ensures
            label@ == spec_language_label(self),
    {
        match self {
            Language::Python => "Python 运算练习",
            Language::Logic => "命题逻辑",
        }
    }

    /// Part of the progress key and of a random question's name; paired with `from_key`.
    pub fn key(self) -> (key: &'static str)
        ensures
            key@ == spec_language_key(self),
    {
        match self {
            Language::Python => "python",
            Language::Logic => "logic",
        }
    }

    pub fn from_key(key: &str) -> (language: Option<Self>)
        ensures
            language == spec_from_key(key@),
    {
        if same_text(key, "python") {
            Some(Language::Python)
        } else if same_text(key, "logic") {
            Some(Language::Logic)
        } else {
            None
        }
    }

    /// What a binding literal of this language must look like.
    pub fn literal_form(self) -> (form: &'static str)
        ensures
            form@ == spec_literal_form(self),
    {
        match self {
            Language::Python => "Python 源码字面量，例如 2、-0.0、True、None",
            Language::Logic => "真值 True / False（也接受 true/false、T / F、真 / 假）",
        }
    }

    /// The strategy a question of this language opens in when it names none.
    pub fn default_mode(self) -> (mode: EvaluationMode)
        ensures
            mode == spec_default_mode(self),
    {
        match self {
            Language::Python => EvaluationMode::ShortCircuit,
            Language::Logic => EvaluationMode::Eager,
        }
    }
}

/// A language's key reads back as that language.
pub proof fn law_language_key_round_trip(language: Language)
    ensures
        spec_from_key(spec_language_key(language)) == Some(language),
{
    reveal_strlit("python");
    reveal_strlit("logic");
    assert("python"@.len() != "logic"@.len());
}

/// Reported by either language's parser and by progress replay.
#[derive(Clone, Debug)]
pub struct ParseError(pub String);

impl ParseError {
    pub fn new(message: String) -> (error: Self)
        ensures
            error.0@ == message@,
    {
        ParseError(message)
    }

    pub fn from_str(message: &str) -> (error: Self)
        ensures
            error.0@ == message@,
    {
        ParseError(String::from_str(message))
    }

    /// What the error says.
    pub fn message(&self) -> (text: String)
        ensures
            text@ == self.0@,
    {
        self.0.clone()
    }
}

/// A step that produces no ordinary value: an exception a language raises, or a limit of
/// what this version can teach.
#[derive(Clone, Debug)]
pub enum EvalError {
    Raised { name: &'static str, reason: String },
    Limit(String),
}

pub open spec fn spec_eval_error_text(error: EvalError) -> Seq<char> {
    match error {
        EvalError::Raised { name, reason } => name@ + ": "@ + reason@,
        EvalError::Limit(reason) => "超出首版支持范围："@ + reason@,
    }
}

impl EvalError {
    /// The answer a student types for a raised error; a limit is not one of them.
    pub fn name(&self) -> (name: Option<&'static str>)
        ensures
            match self {
                EvalError::Raised { name: raised, .. } => name == Some(*raised),
                EvalError::Limit(_) => name is None,
            },
    {
        match self {
            EvalError::Raised { name, .. } => Some(name),
            EvalError::Limit(_) => None,
        }
    }

    /// The sentence a student reads about this error.
    pub fn message(&self) -> (text: String)
        ensures
            text@ == spec_eval_error_text(*self),
    {
        match self {
            EvalError::Raised { name, reason } => {
                let mut text: String = String::from_str(name);
                text.append(": ");
                text.append(reason.as_str());
                text
            },
            EvalError::Limit(reason) => {
                let mut text: String = String::from_str("超出首版支持范围：");
                text.append(reason.as_str());
                text
            },
        }
    }
}

/// What the rules made of a student's answer or selection.
#[derive(Clone, Copy, Debug, PartialEq, Eq, Structural)]
pub enum FeedbackKind {
    Correct,
    AlreadyValue,
    NeedsInner,
    OutOfOrder,
    Skipped,
    WrongValue,
    WrongType,
    InvalidInput,
    Unsupported,
    Finished,
}

#[derive(Clone, Debug)]
pub struct Feedback {
    pub kind: FeedbackKind,
    pub message: String,
}

impl Feedback {
    pub fn new(kind: FeedbackKind, message: String) -> (feedback: Self)
        ensures
            feedback.kind == kind,
            feedback.message@ == message@,
    {
        Feedback { kind, message }
    }

    /// Only a correct step is accepted.
    pub fn accepted(&self) -> (accepted: bool)
        ensures
            accepted == (self.kind == FeedbackKind::Correct),
    {
        self.kind == FeedbackKind::Correct
    }
}

/// One accepted student step: the node it applied to and the typed answer, or `None` for a
/// click that removed a finished pair of brackets.
#[derive(Clone, Debug)]
pub struct RecordedAttempt {
    pub node_id: usize,
    pub input: Option<String>,
}

pub open spec fn spec_same_attempt(a: RecordedAttempt, b: RecordedAttempt) -> bool {
    &&& a.node_id == b.node_id
    &&& match (a.input, b.input) {
        (Some(x), Some(y)) => x@ == y@,
        (None, None) => true,
        _ => false,
    }
}

impl RecordedAttempt {
    /// The same node and the same answer.
    pub fn same_as(&self, other: &RecordedAttempt) -> (same: bool)
        ensures
            same == spec_same_attempt(*self, *other),
    {
        if self.node_id != other.node_id {
            return false;
        }
        match (&self.input, &other.input) {
            (Some(x), Some(y)) => same_text(x.as_str(), y.as_str()),
            (None, None) => true,
            _ => false,
        }
    }
}

/// Where a rendered operation puts its symbol.
#[derive(Clone, Copy, Debug, PartialEq, Eq)]
pub enum Layout {
    Prefix(&'static str),
    Infix(&'static str),
}

} // verus!
