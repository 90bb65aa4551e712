//! What an evaluation session decides: which steps a tree offers, read from its shape (node
//! kinds, precedence, short circuit and each operator's decision), and what a student's
//! click or typed answer earns.
//!
//! The tree itself holds the values of a Python expression, floats among them, so its
//! values stay with the caller; everything here works on its shape and on what a step
//! produced.

use vstd::prelude::*;
use crate::teaching::{spec_mode_key, EvalError, EvaluationMode, Feedback, FeedbackKind};
use crate::text::{chars_of, concat, decimal, push_decimal, same_text, trim, trim_chars};

verus! {

/// The sentence for a step this version cannot teach.
pub open spec fn spec_unsupported(reason: Seq<char>) -> Seq<char> {
    "超出首版支持范围："@ + reason + " 这不是 Python 求值结果，也不计作答错。"@
}

/// The sentence for naming the error a step raises.
pub open spec fn spec_raised_correct(explanation: Seq<char>) -> Seq<char> {
    "正确。"@ + explanation + " 求值在这里终止。"@
}

/// The sentence for answering a raising step with anything but the error's name.
pub open spec fn spec_raised_wrong(explanation: Seq<char>) -> Seq<char> {
    "这一步不会产生普通值。"@ + explanation + " 请填写异常名称。"@
}

/// What a typed answer gets when the step raises or hits a limit.
pub open spec fn spec_judge_error(error: EvalError, explanation: Seq<char>, input: Seq<char>) -> (
    FeedbackKind,
    Seq<char>,
) {
    match error {
        EvalError::Limit(reason) => (FeedbackKind::Unsupported, spec_unsupported(reason@)),
        EvalError::Raised { name, .. } => if trim(input) == name@ {
            (FeedbackKind::Correct, spec_raised_correct(explanation))
        } else {
            (FeedbackKind::WrongValue, spec_raised_wrong(explanation))
        },
    }
}

/// Judge a typed answer for a step that produces no ordinary value. A limit of this
/// version is never counted against the student; a raised error is answered by its name,
/// with white space around it ignored.
pub fn judge_error(error: &EvalError, explanation: &str, input: &str) -> (feedback: Feedback)
    ensures
        (feedback.kind, feedback.message@) == spec_judge_error(*error, explanation@, input@),
{
    match error {
        EvalError::Limit(reason) => {
            let mut message: String = String::from_str("超出首版支持范围：");
            message.append(reason.as_str());
            message.append(" 这不是 Python 求值结果，也不计作答错。");
            Feedback::new(FeedbackKind::Unsupported, message)
        },
        EvalError::Raised { name, .. } => {
            let typed: Vec<char> = trim_chars(&chars_of(input));
            let expected: Vec<char> = chars_of(name);
            if crate::text::same_chars(&typed, &expected) {
                let mut message: String = concat("正确。", explanation);
                message.append(" 求值在这里终止。");
                Feedback::new(FeedbackKind::Correct, message)
            } else {
                let mut message: String = concat("这一步不会产生普通值。", explanation);
                message.append(" 请填写异常名称。");
                Feedback::new(FeedbackKind::WrongValue, message)
            }
        },
    }
}

/// A typed answer, read as a literal of the question's language.
pub enum Answer {
    /// Not a literal of the language; what the reader said about it.
    Unreadable(String),
    /// A literal of type `kind`; `same` tells whether it is the value the step produces.
    Read { kind: String, same: bool },
}

/// The sentence for an answer of the wrong type.
pub open spec fn spec_wrong_type(expected: Seq<char>, actual: Seq<char>, explanation: Seq<char>) -> Seq<
    char,
> {
    "这里应返回 "@ + expected + "，你填写的是 "@ + actual + "。值相等也不代表类型相同。"@ + explanation
}

/// The sentence for an answer of the right type and the wrong value.
pub open spec fn spec_wrong_value(explanation: Seq<char>) -> Seq<char> {
    "选对了位置，但结果不正确。"@ + explanation + " 请再算一次。"@
}

/// What a typed answer gets when the step produces a value of type `expected`. The type is
/// checked before the value: an equal value of another type is still wrong.
pub open spec fn spec_judge_value(expected: Seq<char>, explanation: Seq<char>, answer: Answer) -> (
    FeedbackKind,
    Seq<char>,
) {
    match answer {
        Answer::Unreadable(reason) => (FeedbackKind::InvalidInput, reason@),
        Answer::Read { kind, same } => if kind@ != expected {
            (FeedbackKind::WrongType, spec_wrong_type(expected, kind@, explanation))
        } else if same {
            (FeedbackKind::Correct, "正确。"@ + explanation)
        } else {
            (FeedbackKind::WrongValue, spec_wrong_value(explanation))
        },
    }
}

/// Judge a typed answer for a step that produces a value of type `expected`.
pub fn judge_value(expected: &str, explanation: &str, answer: &Answer) -> (feedback: Feedback)
    ensures
        (feedback.kind, feedback.message@) == spec_judge_value(expected@, explanation@, *answer),
{
    match answer {
        Answer::Unreadable(reason) => Feedback::new(FeedbackKind::InvalidInput, reason.clone()),
        Answer::Read { kind, same } => {
            if !same_text(kind.as_str(), expected) {
                let mut message: String = concat("这里应返回 ", expected);
                message.append("，你填写的是 ");
                message.append(kind.as_str());
                message.append("。值相等也不代表类型相同。");
                message.append(explanation);
                Feedback::new(FeedbackKind::WrongType, message)
            } else if *same {
                Feedback::new(FeedbackKind::Correct, concat("正确。", explanation))
            } else {
                let mut message: String = concat("选对了位置，但结果不正确。", explanation);
                message.append(" 请再算一次。");
                Feedback::new(FeedbackKind::WrongValue, message)
            }
        },
    }
}

/// What the tree says about a node the student clicked.
pub struct Selection {
    /// No step is left: the expression is a value or has raised.
    pub finished: bool,
    /// The node is still in the tree.
    pub found: bool,
    /// The node is one of the steps that may be taken now.
    pub allowed: bool,
    /// The node is the step the rules name next.
    pub next: bool,
    /// The node lies inside a subtree that the next step skips.
    pub skipped: bool,
    /// The node is already a value.
    pub value: bool,
    /// The expression of the step that must come first inside the node, where that step is
    /// not the node itself.
    pub inner: Option<String>,
    /// Why the next step applies.
    pub explanation: String,
    /// The expression of the next step.
    pub expected: String,
}

/// Whether a click selects a step, and which one.
pub enum Verdict {
    /// One of the steps that may be taken now.
    Allowed,
    /// The step the rules name next.
    Next,
    /// Not a step: what the student is told.
    Refused(Feedback),
}

pub enum VerdictV {
    Allowed,
    Next,
    Refused(FeedbackKind, Seq<char>),
}

impl Verdict {
    pub open spec fn view(&self) -> VerdictV {
        match self {
            Verdict::Allowed => VerdictV::Allowed,
            Verdict::Next => VerdictV::Next,
            Verdict::Refused(feedback) => VerdictV::Refused(feedback.kind, feedback.message@),
        }
    }
}

pub open spec fn finished_sentence() -> Seq<char> {
    "本题已结束；最终值或异常只是本次求值的完成标志。"@
}

pub open spec fn missing_sentence() -> Seq<char> {
    "这个节点已不存在，请重新选择。"@
}

pub open spec fn spec_skipped(explanation: Seq<char>, expected: Seq<char>) -> Seq<char> {
    "这棵子树会被跳过。"@ + explanation + " 请选择整个 "@ + expected + " 表达式。"@
}

pub open spec fn already_value_sentence() -> Seq<char> {
    "这里已经是一个值，无需再算。请选择一个运算表达式。"@
}

pub open spec fn spec_needs_inner(inner: Seq<char>) -> Seq<char> {
    "这一步不能跳过内部运算。请先计算 "@ + inner + "，再回到当前表达式。"@
}

pub open spec fn spec_out_of_order(expected: Seq<char>) -> Seq<char> {
    "这里目前还不能计算，请先处理 "@ + expected + "。同优先级且不受短路限制的独立子式可以任选。"@
}

/// The rules for a click, in the order they are tried: nothing is left; the node is gone;
/// the node is a step that may be taken now; then, for any node but the next step, a node
/// the next step skips, a value, a node with a step inside it, and a node that must wait.
pub open spec fn spec_verdict(s: Selection) -> VerdictV {
    if s.finished {
        VerdictV::Refused(FeedbackKind::Finished, finished_sentence())
    } else if !s.found {
        VerdictV::Refused(FeedbackKind::InvalidInput, missing_sentence())
    } else if s.allowed {
        VerdictV::Allowed
    } else if s.next {
        VerdictV::Next
    } else if s.skipped {
        VerdictV::Refused(FeedbackKind::Skipped, spec_skipped(s.explanation@, s.expected@))
    } else if s.value {
        VerdictV::Refused(FeedbackKind::AlreadyValue, already_value_sentence())
    } else {
        match s.inner {
            Some(inner) => VerdictV::Refused(FeedbackKind::NeedsInner, spec_needs_inner(inner@)),
            None => VerdictV::Refused(FeedbackKind::OutOfOrder, spec_out_of_order(s.expected@)),
        }
    }
}

/// Decide what a click selects. A refusal never names the value the step produces.
pub fn verdict(selection: &Selection) -> (verdict: Verdict)
    ensures
        verdict@ == spec_verdict(*selection),
{
    if selection.finished {
        return Verdict::Refused(
            Feedback::new(
                FeedbackKind::Finished,
                String::from_str("本题已结束；最终值或异常只是本次求值的完成标志。"),
            ),
        );
    }
    if !selection.found {
        return Verdict::Refused(
            Feedback::new(FeedbackKind::InvalidInput, String::from_str("这个节点已不存在，请重新选择。")),
        );
    }
    if selection.allowed {
        return Verdict::Allowed;
    }
    if selection.next {
        return Verdict::Next;
    }
    if selection.skipped {
        let mut message: String = concat("这棵子树会被跳过。", selection.explanation.as_str());
        message.append(" 请选择整个 ");
        message.append(selection.expected.as_str());
        message.append(" 表达式。");
        return Verdict::Refused(Feedback::new(FeedbackKind::Skipped, message));
    }
    if selection.value {
        return Verdict::Refused(
            Feedback::new(
                FeedbackKind::AlreadyValue,
                String::from_str("这里已经是一个值，无需再算。请选择一个运算表达式。"),
            ),
        );
    }
    match &selection.inner {
        Some(inner) => {
            let mut message: String = concat("这一步不能跳过内部运算。请先计算 ", inner.as_str());
            message.append("，再回到当前表达式。");
            Verdict::Refused(Feedback::new(FeedbackKind::NeedsInner, message))
        },
        None => {
            let mut message: String = concat("这里目前还不能计算，请先处理 ", selection.expected.as_str());
            message.append("。同优先级且不受短路限制的独立子式可以任选。");
            Verdict::Refused(Feedback::new(FeedbackKind::OutOfOrder, message))
        },
    }
}

/// The bytes of the shown text that a node of the tree covers.
#[derive(Clone, Copy, Debug, PartialEq, Eq, Structural)]
pub struct Span {
    pub node: usize,
    pub start: usize,
    pub end: usize,
}

/// Where a span lies once the bytes `removed_start..removed_end` have given way to
/// `inserted` bytes: after the cut it moves by the difference; across the end of the cut
/// its end moves; before the cut it stays.
pub open spec fn spec_shift(span: Span, removed_start: usize, removed_end: usize, inserted: usize) -> Span {
    let shift: int = inserted - (removed_end - removed_start);
    if span.start >= removed_end {
        Span { node: span.node, start: (span.start + shift) as usize, end: (span.end + shift) as usize }
    } else if span.end >= removed_end {
        Span { node: span.node, start: span.start, end: (span.end + shift) as usize }
    } else {
        span
    }
}

/// The spans whose node is kept, in order, each moved by [`spec_shift`].
pub open spec fn spec_shift_spans(
    spans: Seq<Span>,
    kept: Seq<bool>,
    removed_start: usize,
    removed_end: usize,
    inserted: usize,
) -> Seq<Span>
    decreases spans.len(),
{
    if spans.len() == 0 {
        seq![]
    } else {
        let rest: Seq<Span> = spec_shift_spans(
            spans.drop_last(),
            kept.drop_last(),
            removed_start,
            removed_end,
            inserted,
        );
        if kept[spans.len() - 1] {
            rest.push(spec_shift(spans.last(), removed_start, removed_end, inserted))
        } else {
            rest
        }
    }
}

/// A span that the cut can move: it starts no later than it ends, and its end stays
/// within `usize` when the inserted bytes are added.
pub open spec fn movable(span: Span, inserted: usize) -> bool {
    span.start <= span.end && span.end + inserted <= usize::MAX
}

/// Move the spans of the shown text after a node's bytes were replaced, dropping those
/// whose node has left the tree (`kept` is false for them).
pub fn shift_spans(
    spans: &Vec<Span>,
    kept: &Vec<bool>,
    removed_start: usize,
    removed_end: usize,
    inserted: usize,
) -> (shifted: Vec<Span>)
    requires
        removed_start <= removed_end,
        kept.len() == spans.len(),
        forall|i: int| 0 <= i < spans.len() && kept[i] ==> movable(#[trigger] spans[i], inserted),
    ensures
        shifted@ == spec_shift_spans(spans@, kept@, removed_start, removed_end, inserted),
{
    let mut shifted: Vec<Span> = Vec::new();
    let mut i: usize = 0;
    while i < spans.len()
        invariant
            i <= spans.len(),
            kept.len() == spans.len(),
            removed_start <= removed_end,
            forall|j: int| 0 <= j < spans.len() && kept[j] ==> movable(#[trigger] spans[j], inserted),
            shifted@ == spec_shift_spans(
                spans@.take(i as int),
                kept@.take(i as int),
                removed_start,
                removed_end,
                inserted,
            ),
        decreases spans.len() - i,
    {
        let span: Span = spans[i];
        assert(spans@.take(i + 1).drop_last() =~= spans@.take(i as int));
        assert(kept@.take(i + 1).drop_last() =~= kept@.take(i as int));
        if kept[i] {
            assert(movable(spans[i as int], inserted));
            let moved: Span = if span.start >= removed_end {
                Span {
                    node: span.node,
                    start: span.start - (removed_end - removed_start) + inserted,
                    end: span.end - (removed_end - removed_start) + inserted,
                }
            } else if span.end >= removed_end {
                Span {
                    node: span.node,
                    start: span.start,
                    end: span.end - (removed_end - removed_start) + inserted,
                }
            } else {
                span
            };
            shifted.push(moved);
        }
        i += 1;
    }
    assert(spans@.take(spans.len() as int) =~= spans@);
    assert(kept@.take(kept.len() as int) =~= kept@);
    shifted
}

/// `char::is_alphanumeric`: whether a character is alphabetic or numeric in Unicode.
pub uninterp spec fn alphanumeric(c: char) -> bool;

/// `char::is_alphanumeric`, which answers from Unicode's tables; its answer is named
/// [`alphanumeric`] and not stated further.
#[verifier::external_body]
fn is_alphanumeric(c: char) -> (r: bool)
    ensures
        r == alphanumeric(c),
{
    c.is_alphanumeric()
}

/// A character that belongs to a word: a letter, a digit or an underscore.
pub open spec fn word(c: Option<char>) -> bool {
    match c {
        Some(c) => alphanumeric(c) || c == '_',
        None => false,
    }
}

fn is_word(c: Option<char>) -> (r: bool)
    ensures
        r == word(c),
{
    match c {
        Some(c) => is_alphanumeric(c) || c == '_',
        None => false,
    }
}

/// What stands in the shown text for a node's new value: the value, with a space on
/// either side where it would otherwise run into a word beside it (`before` and `after`
/// are the characters next to the replaced bytes).
pub open spec fn spec_padded(replacement: Seq<char>, before: Option<char>, after: Option<char>) -> Seq<char> {
    let first: Option<char> = if replacement.len() > 0 { Some(replacement[0]) } else { None };
    let last: Option<char> = if replacement.len() > 0 { Some(replacement.last()) } else { None };
    (if word(before) && word(first) { " "@ } else { seq![] }) + replacement + (if word(last)
        && word(after) {
        " "@
    } else {
        seq![]
    })
}

/// The text that replaces a node's bytes in the shown expression.
pub fn padded(replacement: &str, before: Option<char>, after: Option<char>) -> (text: String)
    ensures
        text@ == spec_padded(replacement@, before, after),
{
    let chars: Vec<char> = chars_of(replacement);
    let first: Option<char> = if chars.len() > 0 { Some(chars[0]) } else { None };
    let last: Option<char> = if chars.len() > 0 { Some(chars[chars.len() - 1]) } else { None };
    let mut text: String = String::new();
    if is_word(before) && is_word(first) {
        text.append(" ");
    }
    text.append(replacement);
    if is_word(last) && is_word(after) {
        text.append(" ");
    }
    proof {
        reveal_strlit(" ");
    }
    text
}

/// Whether the operation at position `i` ranks highest among the ready ones.
pub open spec fn ranks_highest(ranks: Seq<u8>, i: int) -> bool {
    forall|j: int| 0 <= j < ranks.len() ==> ranks[j] <= ranks[i]
}

/// Which of the operations ready inside one pair of brackets may be taken now: those at
/// the highest precedence among them, in any order. Brackets rank their own contents, so
/// a caller asks this once per bracketed scope.
pub fn highest_ranked(ranks: &Vec<u8>) -> (keep: Vec<bool>)
    ensures
        keep.len() == ranks.len(),
        forall|i: int| 0 <= i < ranks.len() ==> keep[i] == ranks_highest(ranks@, i),
{
    let mut highest: u8 = 0;
    let mut i: usize = 0;
    while i < ranks.len()
        invariant
            i <= ranks.len(),
            forall|j: int| 0 <= j < i ==> ranks[j] <= highest,
            i > 0 ==> exists|j: int| 0 <= j < i && ranks[j] == highest,
        decreases ranks.len() - i,
    {
        if ranks[i] > highest || i == 0 {
            highest = ranks[i];
        }
        i += 1;
    }
    let mut keep: Vec<bool> = Vec::new();
    let mut k: usize = 0;
    while k < ranks.len()
        invariant
            k <= ranks.len(),
            keep.len() == k,
            forall|j: int| 0 <= j < ranks.len() ==> ranks[j] <= highest,
            ranks.len() > 0 ==> exists|j: int| 0 <= j < ranks.len() && ranks[j] == highest,
            forall|j: int| 0 <= j < k ==> keep[j] == ranks_highest(ranks@, j),
        decreases ranks.len() - k,
    {
        let top: bool = ranks[k] == highest;
        assert(top == ranks_highest(ranks@, k as int)) by {
            if !top {
                let w: int = choose|j: int| 0 <= j < ranks.len() && ranks[j] == highest;
                assert(ranks[w] > ranks[k as int]);
            }
        }
        keep.push(top);
        k += 1;
    }
    keep
}

/// One node of the tree, as far as substitution cares: the name it stands for, if it is a
/// bound name.
#[derive(Clone, Debug)]
pub struct Occurrence {
    pub node: usize,
    pub binding: Option<String>,
}

/// Whether an answer given at the selected node also replaces `row`: a bound name is
/// replaced everywhere it occurs, any other node only where it stands.
pub open spec fn replaced_with(selected: usize, name: Option<Seq<char>>, row: Occurrence) -> bool {
    match name {
        Some(name) => match row.binding {
            Some(other) => other@ == name,
            None => false,
        },
        None => row.node == selected,
    }
}

pub open spec fn spec_replaced(selected: usize, name: Option<Seq<char>>, rows: Seq<Occurrence>) -> Seq<
    usize,
>
    decreases rows.len(),
{
    if rows.len() == 0 {
        seq![]
    } else {
        let rest: Seq<usize> = spec_replaced(selected, name, rows.drop_last());
        if replaced_with(selected, name, rows.last()) {
            rest.push(rows.last().node)
        } else {
            rest
        }
    }
}

/// The nodes an answer at `selected` replaces, in tree order. `name` is the selected
/// node's bound name, if it is one; `rows` lists every node of the tree.
pub fn replaced_nodes(selected: usize, name: Option<&str>, rows: &Vec<Occurrence>) -> (nodes: Vec<usize>)
    ensures
        nodes@ == spec_replaced(selected, match name {
            Some(n) => Some(n@),
            None => None,
        }, rows@),
{
    let ghost wanted: Option<Seq<char>> = match name {
        Some(n) => Some(n@),
        None => None,
    };
    let mut nodes: Vec<usize> = Vec::new();
    let mut i: usize = 0;
    while i < rows.len()
        invariant
            i <= rows.len(),
            wanted == match name {
                Some(n) => Some(n@),
                None => None::<Seq<char>>,
            },
            nodes@ == spec_replaced(selected, wanted, rows@.take(i as int)),
        decreases rows.len() - i,
    {
        let row: &Occurrence = &rows[i];
        assert(rows@.take(i + 1).drop_last() =~= rows@.take(i as int));
        let hit: bool = match name {
            Some(n) => match &row.binding {
                Some(other) => same_text(other.as_str(), n),
                None => false,
            },
            None => row.node == selected,
        };
        if hit {
            nodes.push(row.node);
        }
        i += 1;
    }
    assert(rows@.take(rows.len() as int) =~= rows@);
    nodes
}

/// The note added to a step that replaced a bound name in more than one place.
pub open spec fn spec_substitution_note(count: nat) -> Seq<char> {
    " 已将所有 "@ + decimal(count) + " 处同名变量一起代入。"@
}

/// What a step says about substituting one answer at `count` places: nothing for one
/// place, the count for more.
pub fn substitution_note(count: usize) -> (note: Option<String>)
    ensures
        count <= 1 ==> note is None,
        count > 1 ==> note is Some && note->0@ == spec_substitution_note(count as nat),
{
    if count <= 1 {
        return None;
    }
    let mut note: String = String::from_str(" 已将所有 ");
    push_decimal(&mut note, count);
    note.append(" 处同名变量一起代入。");
    Some(note)
}

/// The sentence that names the next step without its value.
pub open spec fn spec_hint(expression: Seq<char>) -> Seq<char> {
    "下一步选择："@ + expression + "。先判断应用哪条规则，再填写值或异常名。"@
}

/// A hint: which expression to take next, not what it gives.
pub fn hint(expression: &str) -> (text: String)
    ensures
        text@ == spec_hint(expression@),
{
    let mut text: String = concat("下一步选择：", expression);
    text.append("。先判断应用哪条规则，再填写值或异常名。");
    text
}

/// The key under which an evaluation's steps are saved: the substitution rules' version,
/// the evaluation mode and what the language says identifies the question.
pub open spec fn spec_evaluation_key(mode: EvaluationMode, context: Seq<char>) -> Seq<char> {
    "flexible-substitution-v3\n"@ + spec_mode_key(mode) + "\n"@ + context
}

pub fn evaluation_key(mode: EvaluationMode, context: &str) -> (key: String)
    ensures
        key@ == spec_evaluation_key(mode, context@),
{
    let mut key: String = String::from_str("flexible-substitution-v3\n");
    key.append(mode.key());
    key.append("\n");
    key.append(context);
    key
}

/// The position of `id` in `ids`, or 0 where it is absent.
pub open spec fn spec_position(ids: Seq<usize>, id: usize) -> int {
    if exists|i: int| 0 <= i < ids.len() && ids[i] == id {
        choose|i: int| 0 <= i < ids.len() && ids[i] == id && forall|j: int| 0 <= j < i ==> ids[j] != id
    } else {
        0
    }
}

/// The node a selection moves to: the next or the previous one in display order, staying
/// put at either end; from a node not in the list, the move counts from the first.
pub open spec fn spec_adjacent(ids: Seq<usize>, selected: usize, forward: bool) -> usize {
    let index: int = spec_position(ids, selected);
    if forward {
        if index + 1 < ids.len() {
            ids[index + 1]
        } else {
            ids[ids.len() - 1]
        }
    } else if index > 0 {
        ids[index - 1]
    } else {
        ids[0]
    }
}

/// Move the selection one node on or back among `ids`, the nodes still waiting for a step.
pub fn adjacent(ids: &Vec<usize>, selected: usize, forward: bool) -> (next: usize)
    requires
        ids.len() > 0,
    ensures
        next == spec_adjacent(ids@, selected, forward),
{
    let mut i: usize = 0;
    while i < ids.len() && ids[i] != selected
        invariant
            i <= ids.len(),
            forall|j: int| 0 <= j < i ==> ids[j] != selected,
        decreases ids.len() - i,
    {
        i += 1;
    }
    let index: usize = if i < ids.len() { i } else { 0 };
    proof {
        if i < ids.len() {
            let p: int = spec_position(ids@, selected);
            assert(exists|j: int| 0 <= j < ids.len() && ids@[j] == selected) by {
                assert(ids@[i as int] == selected);
            }
            assert(0 <= p < ids.len() && ids@[p] == selected);
            if p < i {
                assert(ids@[p] != selected);
            }
            if p > i {
                assert(ids@[i as int] != selected);
            }
            assert(p == i);
        }
    }
    if forward {
        if index + 1 < ids.len() {
            ids[index + 1]
        } else {
            ids[ids.len() - 1]
        }
    } else if index > 0 {
        ids[index - 1]
    } else {
        ids[0]
    }
}

/// A node still waiting for a step, as drawn: how deep it sits in the tree and which bytes
/// of the shown text it covers.
#[derive(Clone, Copy, Debug)]
pub struct Drawn {
    pub node: usize,
    pub depth: usize,
    pub start: usize,
    pub end: usize,
}

/// Who owns byte `b` after the nodes so far were laid over it: a node covering it takes it
/// from a shallower owner or one of equal depth listed earlier.
pub open spec fn spec_owner(nodes: Seq<Drawn>, b: int) -> Option<(usize, usize)>
    decreases nodes.len(),
{
    if nodes.len() == 0 {
        None
    } else {
        let before: Option<(usize, usize)> = spec_owner(nodes.drop_last(), b);
        let n: Drawn = nodes.last();
        if n.start <= b < n.end && match before {
            Some((depth, _)) => n.depth >= depth,
            None => true,
        } {
            Some((n.depth, n.node))
        } else {
            before
        }
    }
}

/// The node each byte of the shown text belongs to: the deepest node still waiting for a
/// step that covers it, and of equal depth the last one listed. A click on a byte selects
/// its owner.
pub fn owners(length: usize, nodes: &Vec<Drawn>) -> (owned: Vec<Option<usize>>)
    requires
        forall|k: int| 0 <= k < nodes.len() ==> #[trigger] nodes[k].end <= length,
    ensures
        owned.len() == length,
        forall|b: int| 0 <= b < length ==> owned[b] == match spec_owner(nodes@, b) {
            Some((_, node)) => Some(node),
            None => None::<usize>,
        },
{
    let mut held: Vec<Option<(usize, usize)>> = Vec::new();
    let mut b: usize = 0;
    while b < length
        invariant
            b <= length,
            held.len() == b,
            forall|c: int| 0 <= c < b ==> held[c] is None,
        decreases length - b,
    {
        held.push(None);
        b += 1;
    }
    assert(nodes@.take(0) =~= Seq::<Drawn>::empty());
    let mut i: usize = 0;
    while i < nodes.len()
        invariant
            i <= nodes.len(),
            held.len() == length,
            forall|k: int| 0 <= k < nodes.len() ==> #[trigger] nodes[k].end <= length,
            forall|c: int| 0 <= c < length ==> held[c] == spec_owner(nodes@.take(i as int), c),
        decreases nodes.len() - i,
    {
        let n: Drawn = nodes[i];
        let ghost upto = nodes@.take(i + 1);
        assert(upto.drop_last() =~= nodes@.take(i as int));
        assert(upto.last() == n);
        let mut j: usize = n.start;
        while j < n.end
            invariant
                n == nodes[i as int],
                n.end <= length,
                i < nodes.len(),
                upto == nodes@.take(i + 1),
                upto.drop_last() =~= nodes@.take(i as int),
                upto.last() == n,
                held.len() == length,
                n.start <= j,
                forall|c: int|
                    0 <= c < length ==> held[c] == if n.start <= c < j {
                        spec_owner(upto, c)
                    } else {
                        spec_owner(nodes@.take(i as int), c)
                    },
            decreases n.end - j,
        {
            let take: bool = match held[j] {
                Some((depth, _)) => n.depth >= depth,
                None => true,
            };
            assert(spec_owner(upto, j as int) == if take {
                Some((n.depth, n.node))
            } else {
                spec_owner(nodes@.take(i as int), j as int)
            });
            if take {
                held.set(j, Some((n.depth, n.node)));
            }
            j += 1;
        }
        proof {
            assert forall|c: int| 0 <= c < length implies held[c] == spec_owner(upto, c) by {
                if !(n.start <= c < n.end) {
                    assert(spec_owner(upto, c) == spec_owner(nodes@.take(i as int), c));
                }
            }
        }
        i += 1;
    }
    assert(nodes@.take(nodes.len() as int) =~= nodes@);
    let mut owned: Vec<Option<usize>> = Vec::new();
    let mut k: usize = 0;
    while k < length
        invariant
            k <= length,
            held.len() == length,
            owned.len() == k,
            forall|c: int| 0 <= c < length ==> held[c] == spec_owner(nodes@, c),
            forall|c: int| 0 <= c < k ==> owned[c] == match spec_owner(nodes@, c) {
                Some((_, node)) => Some(node),
                None => None::<usize>,
            },
        decreases length - k,
    {
        let o: Option<usize> = match held[k] {
            Some((_, node)) => Some(node),
            None => None,
        };
        owned.push(o);
        k += 1;
    }
    owned
}

/// Whether the whole expression is one operation on two values, so that the blank opens on
/// it at once: `operands` is how many the root operation has (`None` where the root is no
/// operation), and `values` whether every one of them is already a value. A bound name, a
/// pair of brackets or an unfinished operand keeps the student selecting.
pub open spec fn spec_final_pair(operands: Option<usize>, finished: bool, values: bool) -> bool {
    operands == Some(2usize) && !finished && values
}

pub fn final_pair(operands: Option<usize>, finished: bool, values: bool) -> (opens: bool)
    ensures
        opens == spec_final_pair(operands, finished, values),
{
    operands == Some(2usize) && !finished && values
}

/// Whether a minus sign over one number already spells the final answer: the number is
/// not negative itself, so the sign and the number read as one literal.
pub open spec fn spec_sign_completes(negation: bool, number: Option<Seq<char>>) -> bool {
    negation && match number {
        Some(shown) => !(shown.len() > 0 && shown[0] == '-'),
        None => false,
    }
}

/// Whether the expression is finished by a minus sign over the number `number` (as
/// shown), where `negation` tells the root is a negation and `number` is `None` unless its
/// operand is a number.
pub fn sign_completes(negation: bool, number: Option<&str>) -> (completes: bool)
    ensures
        completes == spec_sign_completes(negation, match number {
            Some(n) => Some(n@),
            None => None,
        }),
{
    if !negation {
        return false;
    }
    match number {
        Some(shown) => {
            let chars: Vec<char> = chars_of(shown);
            !(chars.len() > 0 && chars[0] == '-')
        },
        None => false,
    }
}

/// Whether a node is bracketed where it stands inside another: a compound expression is,
/// and so is a negative value, so that replacing a node never changes what binds to what;
/// a bound name and an explicit pair of brackets never are. `value` is the node's value
/// as shown, if it is one.
pub open spec fn spec_bracketed(nested: bool, name_or_group: bool, value: Option<Seq<char>>) -> bool {
    nested && !name_or_group && match value {
        Some(shown) => shown.len() > 0 && shown[0] == '-',
        None => true,
    }
}

pub fn bracketed(nested: bool, name_or_group: bool, value: Option<&str>) -> (brackets: bool)
    ensures
        brackets == spec_bracketed(nested, name_or_group, match value {
            Some(v) => Some(v@),
            None => None,
        }),
{
    if !nested || name_or_group {
        return false;
    }
    match value {
        Some(shown) => {
            let chars: Vec<char> = chars_of(shown);
            chars.len() > 0 && chars[0] == '-'
        },
        None => true,
    }
}

/// Whenever some operation inside a pair of brackets is ready, one of them may be taken:
/// a student is never left with ready work and no step allowed.
pub proof fn law_a_ready_operation_may_always_be_taken(ranks: Seq<u8>)
    requires
        ranks.len() > 0,
    ensures
        exists|i: int| 0 <= i < ranks.len() && ranks_highest(ranks, i),
    decreases ranks.len(),
{
    if ranks.len() == 1 {
        assert(ranks_highest(ranks, 0));
    } else {
        let rest: Seq<u8> = ranks.drop_last();
        law_a_ready_operation_may_always_be_taken(rest);
        let i: int = choose|i: int| 0 <= i < rest.len() && ranks_highest(rest, i);
        if ranks.last() <= ranks[i] {
            assert(ranks_highest(ranks, i)) by {
                assert forall|j: int| 0 <= j < ranks.len() implies ranks[j] <= ranks[i] by {
                    if j < rest.len() {
                        assert(rest[j] <= rest[i]);
                    }
                }
            }
        } else {
            let last: int = ranks.len() - 1;
            assert(ranks_highest(ranks, last)) by {
                assert forall|j: int| 0 <= j < ranks.len() implies ranks[j] <= ranks[last] by {
                    if j < rest.len() {
                        assert(rest[j] <= rest[i]);
                    }
                }
            }
        }
    }
}


/// What an operator decided about its node in a teaching tree: work inside one of its
/// operands first, or apply here.
#[derive(Clone, Copy, Debug, PartialEq, Eq, Structural)]
pub enum Decision {
    Operand(usize),
    Apply,
}

/// A teaching tree as the choice of steps sees it: each node's identifier and kind, and
/// for an operation how tightly it binds, whether later operands may be skipped, and what
/// its operator decided. The values themselves stay with the language.
#[derive(Debug)]
pub struct Shape {
    pub id: usize,
    pub kind: ShapeKind,
}

#[derive(Debug)]
pub enum ShapeKind {
    /// Already a value.
    Value,
    /// A name the question bound.
    Binding,
    /// An explicit pair of brackets.
    Group(Box<Shape>),
    Operation { precedence: u8, skips: bool, decision: Decision, operands: Vec<Shape> },
}

/// The node whose step comes next: a bound name is substituted at once; a pair of brackets
/// waits for its inside and then comes off; an operation goes into the operand its operator
/// names, or applies.
pub open spec fn spec_next_step(s: Shape) -> Option<usize>
    decreases s,
{
    match s.kind {
        ShapeKind::Value => None,
        ShapeKind::Binding => Some(s.id),
        ShapeKind::Group(child) => match spec_next_step(*child) {
            Some(n) => Some(n),
            None => Some(s.id),
        },
        ShapeKind::Operation { decision, operands, .. } => match decision {
            Decision::Operand(i) => if i < operands.len() {
                spec_next_step(operands@[i as int])
            } else {
                None
            },
            Decision::Apply => Some(s.id),
        },
    }
}

/// The node whose step comes next, as [`spec_next_step`] says.
pub fn next_step(shape: &Shape) -> (step: Option<usize>)
    ensures
        step == spec_next_step(*shape),
    decreases shape,
{
    match &shape.kind {
        ShapeKind::Value => None,
        ShapeKind::Binding => Some(shape.id),
        ShapeKind::Group(child) => match next_step(child) {
            Some(n) => Some(n),
            None => Some(shape.id),
        },
        ShapeKind::Operation { decision, operands, .. } => match decision {
            Decision::Operand(i) => if *i < operands.len() {
                next_step(&operands[*i])
            } else {
                None
            },
            Decision::Apply => Some(shape.id),
        },
    }
}


/// The first operand from `k` on that is not yet a value.
pub open spec fn first_unfinished(children: Seq<Shape>, k: int) -> Option<int>
    decreases children.len() - k,
{
    if k < 0 || k >= children.len() {
        None
    } else if !(children[k].kind is Value) {
        Some(k)
    } else {
        first_unfinished(children, k + 1)
    }
}

/// The ready operations of `ops` at the highest rank among `all`, in order.
pub open spec fn highest_of(ops: Seq<(u8, usize)>, all: Seq<(u8, usize)>) -> Seq<usize>
    decreases ops.len(),
{
    if ops.len() == 0 {
        Seq::empty()
    } else {
        let rest = highest_of(ops.drop_last(), all);
        if forall|j: int| 0 <= j < all.len() ==> all[j].0 <= ops.last().0 {
            rest.push(ops.last().1)
        } else {
            rest
        }
    }
}

/// What one node contributes to the steps that may be taken: steps that stand alone (a
/// pair of brackets to take off, and whatever an inner pair of brackets offers), and the
/// operations ready here with their rank, which compete within the enclosing brackets.
/// Inside an operation that may skip later operands, only the first unfinished operand
/// is looked into.
pub open spec fn spec_collect(s: Shape) -> (Seq<usize>, Seq<(u8, usize)>)
    decreases s, 0nat,
{
    match s.kind {
        ShapeKind::Value => (Seq::empty(), Seq::empty()),
        ShapeKind::Binding => (Seq::empty(), Seq::empty()),
        ShapeKind::Group(child) => match spec_next_step(*child) {
            None => (seq![s.id], Seq::empty()),
            Some(_) => (spec_scope(*child), Seq::empty()),
        },
        ShapeKind::Operation { precedence, skips, decision, operands } => match spec_next_step(s) {
            None => (Seq::empty(), Seq::empty()),
            Some(n) => if n == s.id {
                (Seq::empty(), seq![(precedence, n)])
            } else if skips {
                match first_unfinished(operands@, 0) {
                    Some(k) => if 0 <= k < operands.len() {
                        spec_collect(operands@[k])
                    } else {
                        (Seq::empty(), Seq::empty())
                    },
                    None => (Seq::empty(), Seq::empty()),
                }
            } else {
                spec_collect_all(operands@)
            },
        },
    }
}

/// What a list of operands contributes, one after another.
pub open spec fn spec_collect_all(children: Seq<Shape>) -> (Seq<usize>, Seq<(u8, usize)>)
    decreases children, 0nat,
{
    if children.len() == 0 {
        (Seq::empty(), Seq::empty())
    } else {
        let (a, b) = spec_collect_all(children.drop_last());
        let (c, d) = spec_collect(children.last());
        (a + c, b + d)
    }
}

/// The steps a bracketed scope offers: what stands alone, then the ready operations at the
/// highest rank found in it, in either order.
pub open spec fn spec_scope(s: Shape) -> Seq<usize>
    decreases s, 1nat,
{
    let (alone, ops) = spec_collect(s);
    alone + highest_of(ops, ops)
}


/// The bound names of a tree, in display order.
pub open spec fn spec_bindings(s: Shape) -> Seq<usize>
    decreases s, 0nat,
{
    match s.kind {
        ShapeKind::Value => Seq::empty(),
        ShapeKind::Binding => seq![s.id],
        ShapeKind::Group(child) => spec_bindings(*child),
        ShapeKind::Operation { operands, .. } => spec_bindings_all(operands@),
    }
}

pub open spec fn spec_bindings_all(children: Seq<Shape>) -> Seq<usize>
    decreases children, 0nat,
{
    if children.len() == 0 {
        Seq::empty()
    } else {
        spec_bindings_all(children.drop_last()) + spec_bindings(children.last())
    }
}

/// Every step that may be taken now: each bound name, whatever the rules of precedence,
/// then what the whole expression offers as one bracketed scope.
pub open spec fn spec_available(s: Shape) -> Seq<usize> {
    spec_bindings(s) + spec_scope(s)
}

#[verifier::loop_isolation(false)]
fn bindings_into(shape: &Shape, out: &mut Vec<usize>)
    ensures
        final(out)@ == old(out)@ + spec_bindings(*shape),
    decreases shape, 0nat,
{
    match &shape.kind {
        ShapeKind::Value => {
            assert(old(out)@ + Seq::<usize>::empty() =~= old(out)@);
        },
        ShapeKind::Binding => {
            out.push(shape.id);
            assert(final(out)@ =~= old(out)@ + seq![shape.id]) by {
                assert(out@ =~= old(out)@.push(shape.id));
            }
        },
        ShapeKind::Group(child) => {
            bindings_into(child, out);
        },
        ShapeKind::Operation { operands, .. } => {
            let ghost start = out@;
            let mut i: usize = 0;
            assert(operands@.take(0) =~= Seq::<Shape>::empty());
            assert(start + Seq::<usize>::empty() =~= start);
            while i < operands.len()
                invariant
                    i <= operands.len(),
                    out@ == start + spec_bindings_all(operands@.take(i as int)),
                decreases operands.len() - i,
            {
                let ghost before = out@;
                assert(operands@.take(i + 1).drop_last() =~= operands@.take(i as int));
                assert(operands@.take(i + 1).last() == operands@[i as int]);
                bindings_into(&operands[i], out);
                assert(out@ =~= start + spec_bindings_all(operands@.take(i + 1)));
                i += 1;
            }
            assert(operands@.take(operands.len() as int) =~= operands@);
        },
    }
}

/// Where the first operand that is not yet a value stands.
fn first_unfinished_operand(operands: &Vec<Shape>) -> (k: Option<usize>)
    ensures
        k matches Some(j) ==> j < operands.len(),
        first_unfinished(operands@, 0) == (match k {
            Some(j) => Some(j as int),
            None => None,
        }),
{
    let mut i: usize = 0;
    while i < operands.len()
        invariant
            i <= operands.len(),
            first_unfinished(operands@, 0) == first_unfinished(operands@, i as int),
        decreases operands.len() - i,
    {
        let finished: bool = match &operands[i].kind {
            ShapeKind::Value => true,
            _ => false,
        };
        if !finished {
            return Some(i);
        }
        i += 1;
    }
    None
}

/// The identifiers of the ready operations at the highest rank, in order.
fn highest(ops: &Vec<(u8, usize)>) -> (ids: Vec<usize>)
    ensures
        ids@ == highest_of(ops@, ops@),
{
    let mut ranks: Vec<u8> = Vec::new();
    let mut i: usize = 0;
    while i < ops.len()
        invariant
            i <= ops.len(),
            ranks.len() == i,
            forall|j: int| 0 <= j < i ==> ranks@[j] == ops@[j].0,
        decreases ops.len() - i,
    {
        ranks.push(ops[i].0);
        i += 1;
    }
    let keep: Vec<bool> = highest_ranked(&ranks);
    let mut ids: Vec<usize> = Vec::new();
    let mut k: usize = 0;
    assert(ops@.take(0) =~= Seq::<(u8, usize)>::empty());
    while k < ops.len()
        invariant
            k <= ops.len() == ranks.len() == keep.len(),
            forall|j: int| 0 <= j < ops.len() ==> ranks@[j] == ops@[j].0,
            forall|j: int| 0 <= j < ops.len() ==> keep@[j] == ranks_highest(ranks@, j),
            ids@ == highest_of(ops@.take(k as int), ops@),
        decreases ops.len() - k,
    {
        assert(ops@.take(k + 1).drop_last() =~= ops@.take(k as int));
        assert(ops@.take(k + 1).last() == ops@[k as int]);
        assert(keep@[k as int] == (forall|j: int| 0 <= j < ops@.len() ==> ops@[j].0 <= ops@[k as int].0)) by {
            if keep@[k as int] {
                assert forall|j: int| 0 <= j < ops@.len() implies ops@[j].0 <= ops@[k as int].0 by {
                    assert(ranks@[j] <= ranks@[k as int]);
                }
            } else {
                assert(!ranks_highest(ranks@, k as int));
                let j = choose|j: int| 0 <= j < ranks@.len() && !(ranks@[j] <= ranks@[k as int]);
                assert(!(ops@[j].0 <= ops@[k as int].0));
            }
        }
        if keep[k] {
            ids.push(ops[k].1);
        }
        k += 1;
    }
    assert(ops@.take(ops.len() as int) =~= ops@);
    ids
}

#[verifier::loop_isolation(false)]
fn collect(shape: &Shape, alone: &mut Vec<usize>, ops: &mut Vec<(u8, usize)>)
    ensures
        final(alone)@ == old(alone)@ + spec_collect(*shape).0,
        final(ops)@ == old(ops)@ + spec_collect(*shape).1,
    decreases shape, 0nat,
{
    let ghost a0 = alone@;
    let ghost o0 = ops@;
    match &shape.kind {
        ShapeKind::Value => {
            assert(a0 + Seq::<usize>::empty() =~= a0);
            assert(o0 + Seq::<(u8, usize)>::empty() =~= o0);
        },
        ShapeKind::Binding => {
            assert(a0 + Seq::<usize>::empty() =~= a0);
            assert(o0 + Seq::<(u8, usize)>::empty() =~= o0);
        },
        ShapeKind::Group(child) => {
            assert(o0 + Seq::<(u8, usize)>::empty() =~= o0);
            match next_step(child) {
                None => {
                    alone.push(shape.id);
                    assert(alone@ =~= a0 + seq![shape.id]);
                },
                Some(_) => {
                    scope(child, alone);
                },
            }
        },
        ShapeKind::Operation { precedence, skips, operands, .. } => {
            match next_step(shape) {
                None => {
                    assert(a0 + Seq::<usize>::empty() =~= a0);
                    assert(o0 + Seq::<(u8, usize)>::empty() =~= o0);
                },
                Some(n) => {
                    if n == shape.id {
                        ops.push((*precedence, n));
                        assert(ops@ =~= o0 + seq![(*precedence, n)]);
                        assert(a0 + Seq::<usize>::empty() =~= a0);
                    } else if *skips {
                        match first_unfinished_operand(operands) {
                            Some(k) => {
                                collect(&operands[k], alone, ops);
                            },
                            None => {
                                assert(a0 + Seq::<usize>::empty() =~= a0);
                                assert(o0 + Seq::<(u8, usize)>::empty() =~= o0);
                            },
                        }
                    } else {
                        let mut i: usize = 0;
                        assert(operands@.take(0) =~= Seq::<Shape>::empty());
                        assert(a0 + Seq::<usize>::empty() =~= a0);
                        assert(o0 + Seq::<(u8, usize)>::empty() =~= o0);
                        while i < operands.len()
                            invariant
                                i <= operands.len(),
                                alone@ == a0 + spec_collect_all(operands@.take(i as int)).0,
                                ops@ == o0 + spec_collect_all(operands@.take(i as int)).1,
                            decreases operands.len() - i,
                        {
                            assert(operands@.take(i + 1).drop_last() =~= operands@.take(i as int));
                            assert(operands@.take(i + 1).last() == operands@[i as int]);
                            collect(&operands[i], alone, ops);
                            assert(alone@ =~= a0 + spec_collect_all(operands@.take(i + 1)).0);
                            assert(ops@ =~= o0 + spec_collect_all(operands@.take(i + 1)).1);
                            i += 1;
                        }
                        assert(operands@.take(operands.len() as int) =~= operands@);
                    }
                },
            }
        },
    }
}

fn scope(shape: &Shape, out: &mut Vec<usize>)
    ensures
        final(out)@ == old(out)@ + spec_scope(*shape),
    decreases shape, 1nat,
{
    let ghost start = out@;
    let mut ops: Vec<(u8, usize)> = Vec::new();
    collect(shape, out, &mut ops);
    assert(ops@ =~= spec_collect(*shape).1);
    let mut top: Vec<usize> = highest(&ops);
    out.append(&mut top);
    assert(out@ =~= start + spec_scope(*shape));
}

/// Every step that may be taken now, as [`spec_available`] says.
pub fn available_steps(shape: &Shape) -> (ids: Vec<usize>)
    ensures
        ids@ == spec_available(*shape),
{
    let mut ids: Vec<usize> = Vec::new();
    bindings_into(shape, &mut ids);
    scope(shape, &mut ids);
    assert(ids@ =~= spec_available(*shape));
    ids
}


proof fn lemma_highest_of_keeps(ops: Seq<(u8, usize)>, all: Seq<(u8, usize)>, k: int)
    requires
        0 <= k < ops.len(),
        forall|j: int| 0 <= j < all.len() ==> all[j].0 <= ops[k].0,
    ensures
        highest_of(ops, all).contains(ops[k].1),
    decreases ops.len(),
{
    let rest = highest_of(ops.drop_last(), all);
    if k == ops.len() - 1 {
        assert(highest_of(ops, all) == rest.push(ops.last().1));
        assert(highest_of(ops, all)[rest.len() as int] == ops[k].1);
    } else {
        lemma_highest_of_keeps(ops.drop_last(), all, k);
        assert(ops.drop_last()[k] == ops[k]);
        let i: int = choose|i: int| 0 <= i < rest.len() && rest[i] == ops[k].1;
        assert(highest_of(ops, all)[i] == ops[k].1);
    }
}

proof fn lemma_contains_after(a: Seq<usize>, b: Seq<usize>, v: usize)
    requires
        b.contains(v),
    ensures
        (a + b).contains(v),
{
    let i: int = choose|i: int| 0 <= i < b.len() && b[i] == v;
    assert((a + b)[a.len() + i] == v);
}

proof fn lemma_contains_before(a: Seq<usize>, b: Seq<usize>, v: usize)
    requires
        a.contains(v),
    ensures
        (a + b).contains(v),
{
    let i: int = choose|i: int| 0 <= i < a.len() && a[i] == v;
    assert((a + b)[i] == v);
}

/// Ready operations that share the highest rank within one pair of brackets may be taken
/// in either order: each of them is offered.
pub proof fn law_equal_ranks_either_order(s: Shape, i: int, j: int)
    requires
        0 <= i < spec_collect(s).1.len(),
        0 <= j < spec_collect(s).1.len(),
        spec_collect(s).1[i].0 == spec_collect(s).1[j].0,
        forall|k: int|
            0 <= k < spec_collect(s).1.len() ==> spec_collect(s).1[k].0 <= spec_collect(s).1[i].0,
    ensures
        spec_available(s).contains(spec_collect(s).1[i].1),
        spec_available(s).contains(spec_collect(s).1[j].1),
{
    let (alone, ops) = spec_collect(s);
    lemma_highest_of_keeps(ops, ops, i);
    lemma_highest_of_keeps(ops, ops, j);
    lemma_contains_after(alone, highest_of(ops, ops), ops[i].1);
    lemma_contains_after(alone, highest_of(ops, ops), ops[j].1);
    lemma_contains_after(spec_bindings(s), spec_scope(s), ops[i].1);
    lemma_contains_after(spec_bindings(s), spec_scope(s), ops[j].1);
}

/// A pair of brackets is a precedence scope of its own: no operation inside it competes
/// with the operations around it. What it offers stands alone: its inside's own choice of
/// steps while the inside has work left, and then taking the brackets off.
pub proof fn law_brackets_are_local_scopes(s: Shape)
    requires
        s.kind is Group,
    ensures
        spec_collect(s).1.len() == 0,
        spec_next_step(*s.kind->Group_0) is Some ==> spec_collect(s).0 == spec_scope(
            *s.kind->Group_0,
        ),
        spec_next_step(*s.kind->Group_0) is None ==> spec_collect(s).0 == seq![s.id],
{
}

/// A pair of brackets comes off only once its inside is a value: while the inside has a
/// step, the next step is that one.
pub proof fn law_brackets_wait_for_their_inside(s: Shape)
    requires
        s.kind is Group,
    ensures
        spec_next_step(*s.kind->Group_0) is None ==> spec_next_step(s) == Some(s.id),
        spec_next_step(*s.kind->Group_0) is Some ==> spec_next_step(s) == spec_next_step(
            *s.kind->Group_0,
        ),
{
}

/// An operation that may skip later operands waits for its first unfinished operand to
/// decide: while it cannot apply yet, nothing is offered from the operands after it.
pub proof fn law_a_skipping_operation_waits_for_its_condition(s: Shape, k: int)
    requires
        s.kind matches ShapeKind::Operation { skips, .. } && skips,
        spec_next_step(s) is Some,
        spec_next_step(s) != Some(s.id),
        first_unfinished(s.kind->operands@, 0) == Some(k),
    ensures
        0 <= k < s.kind->operands@.len(),
        spec_collect(s) == spec_collect(s.kind->operands@[k]),
{
    lemma_first_unfinished_in_range(s.kind->operands@, 0);
}

proof fn lemma_first_unfinished_in_range(children: Seq<Shape>, k: int)
    requires
        0 <= k,
    ensures
        first_unfinished(children, k) matches Some(j) ==> k <= j < children.len(),
    decreases children.len() - k,
{
    if k < children.len() && children[k].kind is Value {
        lemma_first_unfinished_in_range(children, k + 1);
    }
}

} // verus!
