//! The propositional operations a student selects while evaluating, and what one step at
//! an operation does once its operands are known.

use vstd::prelude::*;

use crate::logic::formula::{
    holds, spec_apply, spec_precedence, spec_rule, spec_short_circuit, spec_symbol, FormulaV, LogicOp,
};
use crate::teaching::{ParseError, EvaluationMode, Layout};

verus! {

/// Every propositional operation a student can select.
#[derive(Clone, Copy, Debug, PartialEq, Eq, Structural)]
pub enum Op {
    Not,
    Binary(LogicOp),
}

pub open spec fn spec_op_precedence(op: Op) -> u8 {
    match op {
        Op::Not => 90,
        Op::Binary(LogicOp::And) => 70,
        Op::Binary(LogicOp::Or) => 50,
        Op::Binary(LogicOp::Implies) => 30,
        Op::Binary(LogicOp::Iff) => 10,
    }
}

/// One step at an operation: reduce an operand first, or apply the operation.
#[derive(Debug)]
pub enum LogicStep {
    Operand(usize),
    Apply { value: bool, explanation: String, skipped: Vec<usize> },
}

pub open spec fn negation_rule() -> Seq<char> {
    "否定：原命题真则结果假，原命题假则结果真。"@
}

pub open spec fn short_circuit_note() -> Seq<char> {
    "短路求值：左侧真值已足以确定结果，右侧无需计算。"@
}

/// What one step at `op` does, given the operand values known so far.
pub open spec fn spec_decide(op: Op, left: Option<bool>, right: Option<bool>, mode: EvaluationMode) -> (
    Option<usize>,
    bool,
    Seq<char>,
    Seq<usize>,
) {
    match op {
        Op::Not => match left {
            None => (Some(0usize), false, Seq::empty(), Seq::empty()),
            Some(v) => (None, !v, negation_rule(), Seq::empty()),
        },
        Op::Binary(b) => match left {
            None => (Some(0usize), false, Seq::empty(), Seq::empty()),
            Some(l) => if mode == EvaluationMode::ShortCircuit && spec_short_circuit(b, l) is Some {
                (None, spec_short_circuit(b, l)->0, short_circuit_note() + spec_rule(b), seq![1usize])
            } else {
                match right {
                    None => (Some(1usize), false, Seq::empty(), Seq::empty()),
                    Some(r) => (None, spec_apply(b, l, r), spec_rule(b), Seq::empty()),
                }
            },
        },
    }
}

pub open spec fn step_matches(step: LogicStep, decided: (Option<usize>, bool, Seq<char>, Seq<usize>)) -> bool {
    match step {
        LogicStep::Operand(i) => decided.0 == Some(i),
        LogicStep::Apply { value, explanation, skipped } => decided.0 is None && decided.1 == value
            && decided.2 == explanation@ && decided.3 == skipped@,
    }
}

impl Op {
    pub fn layout(self) -> (layout: Layout)
        ensures
            match (self, layout) {
                (Op::Not, Layout::Prefix(s)) => s@ == "¬"@,
                (Op::Binary(b), Layout::Infix(s)) => s@ == spec_symbol(b),
                _ => false,
            },
    {
        match self {
            Op::Not => Layout::Prefix("¬"),
            Op::Binary(op) => Layout::Infix(op.symbol()),
        }
    }

    pub fn precedence(self) -> (rank: u8)
        ensures
            rank == spec_op_precedence(self),
    {
        match self {
            Op::Not => 90,
            Op::Binary(op) => op.precedence(),
        }
    }

    /// With short circuit on, every connective but equivalence may skip its right side.
    pub fn skips_operands(self, mode: EvaluationMode) -> (skips: bool)
        ensures
            skips == (self matches Op::Binary(b) && b != LogicOp::Iff && mode
                == EvaluationMode::ShortCircuit),
    {
        match self {
            Op::Binary(op) => op != LogicOp::Iff && mode == EvaluationMode::ShortCircuit,
            Op::Not => false,
        }
    }

    /// One step at this operation. `left` and `right` are the operand values known so far
    /// (a negation reads only `left`).
    pub fn decide(self, left: Option<bool>, right: Option<bool>, mode: EvaluationMode) -> (step:
        LogicStep)
        ensures
            step_matches(step, spec_decide(self, left, right, mode)),
    {
        match self {
            Op::Not => match left {
                None => LogicStep::Operand(0),
                Some(v) => LogicStep::Apply {
                    value: !v,
                    explanation: String::from_str("否定：原命题真则结果假，原命题假则结果真。"),
                    skipped: Vec::new(),
                },
            },
            Op::Binary(op) => match left {
                None => LogicStep::Operand(0),
                Some(l) => {
                    if mode == EvaluationMode::ShortCircuit {
                        if let Some(value) = op.short_circuit(l) {
                            let mut explanation: String = String::from_str(
                                "短路求值：左侧真值已足以确定结果，右侧无需计算。",
                            );
                            explanation.append(op.rule());
                            let mut skipped: Vec<usize> = Vec::new();
                            skipped.push(1);
                            proof {
                                assert(skipped@ =~= seq![1usize]);
                            }
                            return LogicStep::Apply { value, explanation, skipped };
                        }
                    }
                    match right {
                        None => LogicStep::Operand(1),
                        Some(r) => LogicStep::Apply {
                            value: op.apply(l, r),
                            explanation: String::from_str(op.rule()),
                            skipped: Vec::new(),
                        },
                    }
                },
            },
        }
    }
}

/// A step never skips an operand unless short circuit is on, and a skipped right side
/// never changes the value: whatever it would have been, the full truth table agrees.
pub proof fn law_skipping_never_changes_the_value(
    b: LogicOp,
    l: bool,
    r: bool,
    mode: EvaluationMode,
)
    ensures
        spec_decide(Op::Binary(b), Some(l), Some(r), EvaluationMode::Eager).3.len() == 0,
        spec_decide(Op::Binary(b), Some(l), Some(r), mode).1 == spec_apply(b, l, r),
        spec_decide(Op::Binary(b), Some(l), Some(r), mode).0 is None,
{
}

/// Why a bound letter becomes its truth value: every occurrence of the letter takes it.
pub open spec fn spec_binding_explanation(name: Seq<char>, value: bool) -> Seq<char> {
    "根据本题赋值，将所有同名命题 "@ + name + " 代入为 "@ + (if value {
        "True"@
    } else {
        "False"@
    }) + "。"@
}

pub fn binding_explanation(name: &str, value: bool) -> (text: String)
    ensures
        text@ == spec_binding_explanation(name@, value),
{
    let mut text: String = String::from_str("根据本题赋值，将所有同名命题 ");
    text.append(name);
    text.append(" 代入为 ");
    text.append(if value { "True" } else { "False" });
    text.append("。");
    text
}

pub open spec fn spec_unbound(name: Seq<char>) -> Seq<char> {
    "未给命题 "@ + name + " 赋值；使用 --assign "@ + name + "=true 或 "@ + name + "=false。"@
}

/// A letter the question gives no truth value.
pub fn unbound(name: &str) -> (refusal: ParseError)
    ensures
        refusal.0@ == spec_unbound(name@),
{
    let mut text: String = String::from_str("未给命题 ");
    text.append(name);
    text.append(" 赋值；使用 --assign ");
    text.append(name);
    text.append("=true 或 ");
    text.append(name);
    text.append("=false。");
    ParseError::new(text)
}

pub open spec fn spec_unused(name: Seq<char>) -> Seq<char> {
    "公式中没有命题 "@ + name + "。"@
}

/// A truth value given for a letter the formula does not use.
pub fn unused(name: &str) -> (refusal: ParseError)
    ensures
        refusal.0@ == spec_unused(name@),
{
    let mut text: String = String::from_str("公式中没有命题 ");
    text.append(name);
    text.append("。");
    ParseError::new(text)
}


/// A step that applies a connective gives the value the formula has under the valuation,
/// for every formula and valuation: negation gives the opposite of its operand's value;
/// a binary connective, once both operands are values, gives its truth-table value; and
/// whenever short circuit applies one on its left operand alone, the value it gives is
/// the formula's value whatever its right side is.
pub proof fn law_steps_give_the_formulas_value(f: FormulaV, t: Set<Seq<char>>, mode: EvaluationMode)
    ensures
        f matches FormulaV::Not(c) ==> {
            let d = spec_decide(Op::Not, Some(holds(*c, t)), None, mode);
            d.0 is None && d.1 == holds(f, t) && d.1 == !holds(*c, t)
        },
        f matches FormulaV::Binary(b, l, r) ==> {
            let full = spec_decide(Op::Binary(b), Some(holds(*l, t)), Some(holds(*r, t)), mode);
            let early = spec_decide(Op::Binary(b), Some(holds(*l, t)), None, mode);
            &&& full.0 is None && full.1 == holds(f, t)
            &&& early.0 is None ==> early.1 == holds(f, t)
        },
{
    if let FormulaV::Binary(b, l, r) = f {
        if spec_short_circuit(b, holds(*l, t)) is Some {
            crate::logic::formula::law_short_circuit_agrees(b, holds(*l, t), holds(*r, t));
        }
    }
}

/// Negation flips a known operand, whatever else is known and whichever strategy is on.
pub proof fn law_negation_flips(v: bool, r: Option<bool>, mode: EvaluationMode)
    ensures
        spec_decide(Op::Not, Some(v), r, mode).0 is None,
        spec_decide(Op::Not, Some(v), r, mode).1 == !v,
        spec_decide(Op::Not, None, r, mode).0 == Some(0usize),
{
}

/// The connectives' truth tables: conjunction is true when both sides are, disjunction
/// when either is, implication unless a true left side meets a false right side, and
/// equivalence when both sides agree.
pub proof fn law_truth_tables(l: bool, r: bool)
    ensures
        spec_apply(LogicOp::And, l, r) == (l && r),
        spec_apply(LogicOp::Or, l, r) == (l || r),
        spec_apply(LogicOp::Implies, l, r) == (!l || r),
        spec_apply(LogicOp::Iff, l, r) == (l == r),
        spec_short_circuit(LogicOp::And, l) == (if l { None } else { Some(false) }),
        spec_short_circuit(LogicOp::Or, l) == (if l { Some(true) } else { None }),
        spec_short_circuit(LogicOp::Implies, l) == (if l { None } else { Some(true) }),
        spec_short_circuit(LogicOp::Iff, l) is None,
{
}

/// The connectives bind in the order negation, conjunction, disjunction, implication,
/// equivalence, each strictly tighter than the next, when a student picks a step.
pub proof fn law_connective_step_precedence(b: LogicOp)
    ensures
        spec_op_precedence(Op::Not) > spec_op_precedence(Op::Binary(b)),
        spec_op_precedence(Op::Binary(b)) == spec_precedence(b),
        spec_precedence(LogicOp::And) > spec_precedence(LogicOp::Or),
        spec_precedence(LogicOp::Or) > spec_precedence(LogicOp::Implies),
        spec_precedence(LogicOp::Implies) > spec_precedence(LogicOp::Iff),
{
}

} // verus!
