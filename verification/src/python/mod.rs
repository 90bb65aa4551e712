//! The Python operators a student can select: their symbols, the rule each applies, how
//! tightly each binds, and the exceptions Python's numeric rules raise.

pub mod reading;
pub mod generate;
pub mod integers;

use vstd::prelude::*;

use crate::teaching::{EvalError, EvaluationMode, Layout};

verus! {

/// What a Python binding literal looks like, for a question file that wrote something else.
pub const LITERAL_FORM: &'static str = "Python 源码字面量，例如 2、-0.0、True、None";

#[derive(Clone, Copy, Debug, PartialEq, Eq, Structural)]
pub enum UnaryOp {
    Positive,
    Negative,
    Not,
}

pub open spec fn spec_unary_symbol(op: UnaryOp) -> Seq<char> {
    match op {
        UnaryOp::Positive => "+"@,
        UnaryOp::Negative => "-"@,
        UnaryOp::Not => "not "@,
    }
}

pub open spec fn spec_unary_rule(op: UnaryOp) -> Seq<char> {
    match op {
        UnaryOp::Positive => "一元 + 保留数值；布尔值参加数值运算时会转成整数。"@,
        UnaryOp::Negative => "一元 - 改变数值的符号。"@,
        UnaryOp::Not => "not 根据操作数的真假值取反，结果一定是 bool。"@,
    }
}

impl UnaryOp {
    pub fn symbol(self) -> (symbol: &'static str)
        ensures
            symbol@ == spec_unary_symbol(self),
    {
        match self {
            UnaryOp::Positive => "+",
            UnaryOp::Negative => "-",
            UnaryOp::Not => "not ",
        }
    }

    /// The rule a student applies at this operator.
    pub fn rule(self) -> (rule: &'static str)
        ensures
            rule@ == spec_unary_rule(self),
    {
        match self {
            UnaryOp::Positive => "一元 + 保留数值；布尔值参加数值运算时会转成整数。",
            UnaryOp::Negative => "一元 - 改变数值的符号。",
            UnaryOp::Not => "not 根据操作数的真假值取反，结果一定是 bool。",
        }
    }
}

#[derive(Clone, Copy, Debug, PartialEq, Eq, Structural)]
pub enum BinaryOp {
    Add,
    Subtract,
    Multiply,
    Divide,
    FloorDivide,
    Modulo,
    Power,
}

pub open spec fn spec_binary_symbol(op: BinaryOp) -> Seq<char> {
    match op {
        BinaryOp::Add => "+"@,
        BinaryOp::Subtract => "-"@,
        BinaryOp::Multiply => "*"@,
        BinaryOp::Divide => "/"@,
        BinaryOp::FloorDivide => "//"@,
        BinaryOp::Modulo => "%"@,
        BinaryOp::Power => "**"@,
    }
}

pub open spec fn spec_binary_rule(op: BinaryOp) -> Seq<char> {
    match op {
        BinaryOp::Add => "两个操作数都已求值，现在应用加法规则。"@,
        BinaryOp::Subtract => "两个操作数都已求值，现在应用减法规则。"@,
        BinaryOp::Multiply => "两个操作数都已求值，现在应用乘法规则。"@,
        BinaryOp::Divide => "Python 的 / 是真除法，整数相除也返回 float。"@,
        BinaryOp::FloorDivide => "// 向负无穷取整，而不是朝零截断；有浮点操作数时返回 float。"@,
        BinaryOp::Modulo => "% 的非零余数与除数同号，并与 // 的向下取整规则一致。"@,
        BinaryOp::Power => "** 应用乘方规则；负整数指数返回 float。"@,
    }
}

impl BinaryOp {
    pub fn symbol(self) -> (symbol: &'static str)
        ensures
            symbol@ == spec_binary_symbol(self),
    {
        match self {
            BinaryOp::Add => "+",
            BinaryOp::Subtract => "-",
            BinaryOp::Multiply => "*",
            BinaryOp::Divide => "/",
            BinaryOp::FloorDivide => "//",
            BinaryOp::Modulo => "%",
            BinaryOp::Power => "**",
        }
    }

    pub fn rule(self) -> (rule: &'static str)
        ensures
            rule@ == spec_binary_rule(self),
    {
        match self {
            BinaryOp::Add => "两个操作数都已求值，现在应用加法规则。",
            BinaryOp::Subtract => "两个操作数都已求值，现在应用减法规则。",
            BinaryOp::Multiply => "两个操作数都已求值，现在应用乘法规则。",
            BinaryOp::Divide => "Python 的 / 是真除法，整数相除也返回 float。",
            BinaryOp::FloorDivide => "// 向负无穷取整，而不是朝零截断；有浮点操作数时返回 float。",
            BinaryOp::Modulo => "% 的非零余数与除数同号，并与 // 的向下取整规则一致。",
            BinaryOp::Power => "** 应用乘方规则；负整数指数返回 float。",
        }
    }
}

#[derive(Clone, Copy, Debug, PartialEq, Eq, Structural)]
pub enum CompareOp {
    Equal,
    NotEqual,
    Less,
    LessEqual,
    Greater,
    GreaterEqual,
}

pub open spec fn spec_compare_symbol(op: CompareOp) -> Seq<char> {
    match op {
        CompareOp::Equal => "=="@,
        CompareOp::NotEqual => "!="@,
        CompareOp::Less => "<"@,
        CompareOp::LessEqual => "<="@,
        CompareOp::Greater => ">"@,
        CompareOp::GreaterEqual => ">="@,
    }
}

impl CompareOp {
    pub fn symbol(self) -> (symbol: &'static str)
        ensures
            symbol@ == spec_compare_symbol(self),
    {
        match self {
            CompareOp::Equal => "==",
            CompareOp::NotEqual => "!=",
            CompareOp::Less => "<",
            CompareOp::LessEqual => "<=",
            CompareOp::Greater => ">",
            CompareOp::GreaterEqual => ">=",
        }
    }
}

#[derive(Clone, Copy, Debug, PartialEq, Eq, Structural)]
pub enum BoolOp {
    And,
    Or,
}

pub open spec fn spec_bool_symbol(op: BoolOp) -> Seq<char> {
    match op {
        BoolOp::And => "and"@,
        BoolOp::Or => "or"@,
    }
}

impl BoolOp {
    pub fn symbol(self) -> (symbol: &'static str)
        ensures
            symbol@ == spec_bool_symbol(self),
    {
        match self {
            BoolOp::And => "and",
            BoolOp::Or => "or",
        }
    }

    /// `and` stops on a false operand, `or` on a true one.
    pub fn stops(self, truthy: bool) -> (stop: bool)
        ensures
            stop == match self {
                BoolOp::And => !truthy,
                BoolOp::Or => truthy,
            },
    {
        match self {
            BoolOp::And => !truthy,
            BoolOp::Or => truthy,
        }
    }
}

/// Every Python operation a student can select.
#[derive(Clone, Copy, Debug, PartialEq, Eq, Structural)]
pub enum Op {
    Unary(UnaryOp),
    Binary(BinaryOp),
    Compare(CompareOp),
    Bool(BoolOp),
}

/// Python's own precedence table, highest first: `**`, unary sign, multiplicative,
/// additive, comparison, `not`, `and`, `or`.
pub open spec fn spec_precedence(op: Op) -> u8 {
    match op {
        Op::Binary(BinaryOp::Power) => 80,
        Op::Unary(UnaryOp::Positive) | Op::Unary(UnaryOp::Negative) => 70,
        Op::Binary(BinaryOp::Multiply) | Op::Binary(BinaryOp::Divide) | Op::Binary(
            BinaryOp::FloorDivide,
        ) | Op::Binary(BinaryOp::Modulo) => 60,
        Op::Binary(BinaryOp::Add) | Op::Binary(BinaryOp::Subtract) => 50,
        Op::Compare(_) => 40,
        Op::Unary(UnaryOp::Not) => 30,
        Op::Bool(BoolOp::And) => 20,
        Op::Bool(BoolOp::Or) => 10,
    }
}

pub open spec fn negative_base_note() -> Seq<char> {
    " 负数作为幂的底数时，显示保留必要括号以免改变含义；该值已完成本步。"@
}

impl Op {
    /// Where the symbol goes: unary operators lead, the rest sit between operands.
    pub fn layout(self) -> (layout: Layout)
        ensures
            match (self, layout) {
                (Op::Unary(u), Layout::Prefix(s)) => s@ == spec_unary_symbol(u),
                (Op::Binary(b), Layout::Infix(s)) => s@ == spec_binary_symbol(b),
                (Op::Compare(c), Layout::Infix(s)) => s@ == spec_compare_symbol(c),
                (Op::Bool(b), Layout::Infix(s)) => s@ == spec_bool_symbol(b),
                _ => false,
            },
    {
        match self {
            Op::Unary(op) => Layout::Prefix(op.symbol()),
            Op::Binary(op) => Layout::Infix(op.symbol()),
            Op::Compare(op) => Layout::Infix(op.symbol()),
            Op::Bool(op) => Layout::Infix(op.symbol()),
        }
    }

    pub fn precedence(self) -> (rank: u8)
        ensures
            rank == spec_precedence(self),
    {
        match self {
            Op::Binary(BinaryOp::Power) => 80,
            Op::Unary(UnaryOp::Positive) | Op::Unary(UnaryOp::Negative) => 70,
            Op::Binary(BinaryOp::Multiply) | Op::Binary(BinaryOp::Divide) | Op::Binary(
                BinaryOp::FloorDivide,
            ) | Op::Binary(BinaryOp::Modulo) => 60,
            Op::Binary(BinaryOp::Add) | Op::Binary(BinaryOp::Subtract) => 50,
            Op::Compare(_) => 40,
            Op::Unary(UnaryOp::Not) => 30,
            Op::Bool(BoolOp::And) => 20,
            Op::Bool(BoolOp::Or) => 10,
        }
    }

    /// Only `and` / `or` skip operands, and only with short circuit on.
    pub fn skips_operands(self, mode: EvaluationMode) -> (skips: bool)
        ensures
            skips == (self is Bool && mode == EvaluationMode::ShortCircuit),
    {
        match self {
            Op::Bool(_) => mode == EvaluationMode::ShortCircuit,
            _ => false,
        }
    }

    /// The note shown when a negative value at operand `index` keeps its brackets: the base
    /// of a power.
    pub fn negative_brackets(self, index: usize) -> (note: Option<&'static str>)
        ensures
            match note {
                Some(s) => self == Op::Binary(BinaryOp::Power) && index == 0 && s@
                    == negative_base_note(),
                None => !(self == Op::Binary(BinaryOp::Power) && index == 0),
            },
    {
        if self == Op::Binary(BinaryOp::Power) && index == 0 {
            Some(" 负数作为幂的底数时，显示保留必要括号以免改变含义；该值已完成本步。")
        } else {
            None
        }
    }
}

/// Unary sign binds looser than `**` and tighter than every other arithmetic operator, so
/// `-2 ** 2` is `-(2 ** 2)`.
pub proof fn law_power_binds_tighter_than_sign()
    ensures
        spec_precedence(Op::Binary(BinaryOp::Power)) > spec_precedence(Op::Unary(UnaryOp::Negative)),
        forall|b: BinaryOp|
            b != BinaryOp::Power ==> spec_precedence(Op::Unary(UnaryOp::Negative))
                > #[trigger] spec_precedence(Op::Binary(b)),
{
}

pub open spec fn spec_type_error(reason: Seq<char>) -> (Seq<char>, Seq<char>) {
    ("TypeError"@, reason)
}

/// `TypeError` with a reason.
pub fn type_error(reason: &str) -> (error: EvalError)
    ensures
        error matches EvalError::Raised { name, reason: r } && name@ == "TypeError"@ && r@
            == reason@,
{
    EvalError::Raised { name: "TypeError", reason: String::from_str(reason) }
}

pub open spec fn zero_division_reason() -> Seq<char> {
    "除数为零；Python 会在这一步停止，不会得到一个数值。"@
}

/// `ZeroDivisionError`, which stops evaluation at the step that divides by zero.
pub fn zero_division() -> (error: EvalError)
    ensures
        error matches EvalError::Raised { name, reason } && name@ == "ZeroDivisionError"@ && reason@
            == zero_division_reason(),
{
    EvalError::Raised {
        name: "ZeroDivisionError",
        reason: String::from_str("除数为零；Python 会在这一步停止，不会得到一个数值。"),
    }
}

/// The next thing a boolean operation does, given which operands are already values and
/// how each of those tests: evaluate the operand at an index, or return one operand's
/// value, skipping the ones after it.
#[derive(Debug)]
pub enum BoolStep {
    Operand(usize),
    Apply { chosen: usize, skipped: Vec<usize> },
}

pub open spec fn spec_stops(op: BoolOp, truthy: bool) -> bool {
    match op {
        BoolOp::And => !truthy,
        BoolOp::Or => truthy,
    }
}

/// The first operand from `k` on that is not yet a value.
pub open spec fn first_unreduced(ops: Seq<Option<bool>>, k: int) -> Option<int>
    decreases ops.len() - k,
{
    if k < 0 || k >= ops.len() {
        None
    } else if ops[k] is None {
        Some(k)
    } else {
        first_unreduced(ops, k + 1)
    }
}

/// The first value from `k` on that stops the operation.
pub open spec fn first_stop(op: BoolOp, ops: Seq<Option<bool>>, k: int) -> Option<int>
    decreases ops.len() - k,
{
    if k < 0 || k >= ops.len() {
        None
    } else if ops[k] matches Some(t) && spec_stops(op, t) {
        Some(k)
    } else {
        first_stop(op, ops, k + 1)
    }
}

/// With short circuit on, the first operand from `k` on that decides what happens: one
/// still to evaluate, one whose value stops the operation, or the last.
pub open spec fn first_decisive(op: BoolOp, ops: Seq<Option<bool>>, k: int) -> int
    decreases ops.len() - k,
{
    if k < 0 || k + 1 >= ops.len() {
        k
    } else if ops[k] is None || (ops[k] matches Some(t) && spec_stops(op, t)) {
        k
    } else {
        first_decisive(op, ops, k + 1)
    }
}

/// The indices from `from` up to `to`, in order.
pub open spec fn index_range(from: int, to: int) -> Seq<usize> {
    Seq::new(if from <= to { (to - from) as nat } else { 0 }, |i: int| (from + i) as usize)
}

pub enum BoolStepV {
    Operand(int),
    Apply { chosen: int, skipped: Seq<usize> },
}

/// What `and` / `or` does next. With every operand evaluated first, the first operand still
/// to evaluate, else the first value that stops the operation (or the last one). With short
/// circuit on, operands are taken in order and the first value that stops the operation
/// (or the last) is returned, skipping the rest.
pub open spec fn spec_bool_step(op: BoolOp, ops: Seq<Option<bool>>, mode: EvaluationMode) -> BoolStepV {
    if mode == EvaluationMode::Eager {
        match first_unreduced(ops, 0) {
            Some(k) => BoolStepV::Operand(k),
            None => BoolStepV::Apply {
                chosen: match first_stop(op, ops, 0) {
                    Some(k) => k,
                    None => ops.len() - 1,
                },
                skipped: Seq::empty(),
            },
        }
    } else {
        let k = first_decisive(op, ops, 0);
        if ops[k] is None {
            BoolStepV::Operand(k)
        } else {
            BoolStepV::Apply { chosen: k, skipped: index_range(k + 1, ops.len() as int) }
        }
    }
}

impl BoolStep {
    pub open spec fn view(&self) -> BoolStepV {
        match self {
            BoolStep::Operand(k) => BoolStepV::Operand(*k as int),
            BoolStep::Apply { chosen, skipped } => BoolStepV::Apply {
                chosen: *chosen as int,
                skipped: skipped@,
            },
        }
    }
}

proof fn lemma_first_decisive_bounds(op: BoolOp, ops: Seq<Option<bool>>, k: int)
    requires
        0 <= k < ops.len(),
    ensures
        k <= first_decisive(op, ops, k) < ops.len(),
    decreases ops.len() - k,
{
    if k + 1 < ops.len() && !(ops[k] is None || (ops[k] matches Some(t) && spec_stops(op, t))) {
        lemma_first_decisive_bounds(op, ops, k + 1);
    }
}

impl BoolOp {
    /// What this operation does next over operands whose values test as `operands[i]`
    /// (`None` where the operand is not yet a value).
    pub fn decide(self, operands: &[Option<bool>], mode: EvaluationMode) -> (step: BoolStep)
        requires
            operands.len() > 0,
        ensures
            step.view() == spec_bool_step(self, operands@, mode),
    {
        let n: usize = operands.len();
        if mode == EvaluationMode::Eager {
            match first_unreduced_index(operands) {
                Some(k) => {
                    return BoolStep::Operand(k);
                },
                None => {},
            }
            let chosen: usize = match self.first_stop_index(operands) {
                Some(k) => k,
                None => n - 1,
            };
            let step = BoolStep::Apply { chosen, skipped: Vec::new() };
            assert(step.view()->skipped =~= Seq::<usize>::empty());
            return step;
        }
        let k: usize = self.first_decisive_index(operands);
        match operands[k] {
            None => BoolStep::Operand(k),
            Some(_) => {
                let mut skipped: Vec<usize> = Vec::new();
                let mut j: usize = k + 1;
                assert(skipped@ =~= index_range(k + 1, j as int));
                while j < n
                    invariant
                        k + 1 <= j <= n,
                        skipped@ == index_range(k + 1, j as int),
                    decreases n - j,
                {
                    skipped.push(j);
                    assert(skipped@ =~= index_range(k + 1, j + 1));
                    j += 1;
                }
                BoolStep::Apply { chosen: k, skipped }
            },
        }
    }

    fn first_stop_index(self, operands: &[Option<bool>]) -> (k: Option<usize>)
        ensures
            match first_stop(self, operands@, 0) {
                Some(i) => k == Some(i as usize) && 0 <= i < operands.len(),
                None => k is None,
            },
    {
        let mut i: usize = 0;
        while i < operands.len()
            invariant
                i <= operands.len(),
                first_stop(self, operands@, 0) == first_stop(self, operands@, i as int),
            decreases operands.len() - i,
        {
            match operands[i] {
                Some(truthy) => {
                    if self.stops(truthy) {
                        return Some(i);
                    }
                },
                None => {},
            }
            i += 1;
        }
        None
    }

    fn first_decisive_index(self, operands: &[Option<bool>]) -> (k: usize)
        requires
            operands.len() > 0,
        ensures
            k == first_decisive(self, operands@, 0),
            k < operands.len(),
    {
        let n: usize = operands.len();
        let mut k: usize = 0;
        while k + 1 < n
            invariant
                k < n == operands.len(),
                first_decisive(self, operands@, 0) == first_decisive(self, operands@, k as int),
            decreases n - k,
        {
            let decisive: bool = match operands[k] {
                None => true,
                Some(truthy) => self.stops(truthy),
            };
            if decisive {
                return k;
            }
            k += 1;
        }
        k
    }
}

fn first_unreduced_index(operands: &[Option<bool>]) -> (k: Option<usize>)
    ensures
        match first_unreduced(operands@, 0) {
            Some(i) => 0 <= i < operands.len() && k == Some(i as usize),
            None => k is None,
        },
{
    let mut k: usize = 0;
    while k < operands.len()
        invariant
            k <= operands.len(),
            first_unreduced(operands@, 0) == first_unreduced(operands@, k as int),
        decreases operands.len() - k,
    {
        if operands[k].is_none() {
            return Some(k);
        }
        k += 1;
    }
    None
}

/// Short circuit never changes the value: once every operand is a value, both strategies
/// return the same operand.
pub proof fn law_short_circuit_returns_the_same_operand(op: BoolOp, ops: Seq<Option<bool>>)
    requires
        ops.len() > 0,
        forall|i: int| 0 <= i < ops.len() ==> ops[i] is Some,
    ensures
        spec_bool_step(op, ops, EvaluationMode::Eager)->chosen == spec_bool_step(
            op,
            ops,
            EvaluationMode::ShortCircuit,
        )->chosen,
{
    lemma_no_unreduced(ops, 0);
    lemma_decisive_is_stop(op, ops, 0);
    lemma_first_decisive_bounds(op, ops, 0);
}

proof fn lemma_no_unreduced(ops: Seq<Option<bool>>, k: int)
    requires
        0 <= k,
        forall|i: int| 0 <= i < ops.len() ==> ops[i] is Some,
    ensures
        first_unreduced(ops, k) is None,
    decreases ops.len() - k,
{
    if k < ops.len() {
        lemma_no_unreduced(ops, k + 1);
    }
}

proof fn lemma_decisive_is_stop(op: BoolOp, ops: Seq<Option<bool>>, k: int)
    requires
        0 <= k < ops.len(),
        forall|i: int| 0 <= i < ops.len() ==> ops[i] is Some,
    ensures
        first_decisive(op, ops, k) == match first_stop(op, ops, k) {
            Some(s) => s,
            None => ops.len() - 1,
        },
    decreases ops.len() - k,
{
    if k + 1 < ops.len() {
        lemma_decisive_is_stop(op, ops, k + 1);
    } else {
        assert(first_stop(op, ops, k + 1) is None);
    }
}

/// The widest integer, in bits, that an evaluation may hold.
pub const MAX_INTEGER_BITS: u64 = 4096;

/// Why an integer wider than [`MAX_INTEGER_BITS`] is refused.
pub open spec fn integer_limit_reason() -> Seq<char> {
    "整数最多 4096 位二进制。"@
}

/// The limit an integer of `bits` bits hits, if it is too wide to teach.
pub fn integer_limit(bits: u64) -> (limit: Option<EvalError>)
    ensures
        bits <= MAX_INTEGER_BITS ==> limit is None,
        bits > MAX_INTEGER_BITS ==> (limit matches Some(EvalError::Limit(reason)) && reason@
            == integer_limit_reason()),
{
    if bits > MAX_INTEGER_BITS {
        Some(EvalError::Limit(String::from_str("整数最多 4096 位二进制。")))
    } else {
        None
    }
}

/// How two numbers stand to each other.
#[derive(Clone, Copy, Debug, PartialEq, Eq, Structural)]
pub enum Order {
    Less,
    Equal,
    Greater,
}

pub open spec fn none_order_reason() -> Seq<char> {
    "None 不支持大小比较。"@
}

/// What a comparison answers, `None` standing for the `TypeError` it raises. `order` is how
/// the operands stand, where they can be ordered; `with_none` tells whether either of them
/// is `None`. Equality and inequality answer for any operands; the other comparisons
/// refuse `None`.
pub open spec fn spec_compare_outcome(op: CompareOp, order: Option<Order>, with_none: bool) -> Option<
    bool,
> {
    match op {
        CompareOp::Equal => Some(order == Some(Order::Equal)),
        CompareOp::NotEqual => Some(order != Some(Order::Equal)),
        _ => if with_none {
            None
        } else {
            Some(
                match op {
                    CompareOp::Less => order == Some(Order::Less),
                    CompareOp::LessEqual => order == Some(Order::Less) || order == Some(Order::Equal),
                    CompareOp::Greater => order == Some(Order::Greater),
                    _ => order == Some(Order::Greater) || order == Some(Order::Equal),
                },
            )
        },
    }
}

/// Answer a comparison from how its operands stand.
pub fn compare_outcome(op: CompareOp, order: Option<Order>, with_none: bool) -> (outcome: Result<
    bool,
    EvalError,
>)
    ensures
        match spec_compare_outcome(op, order, with_none) {
            Some(answer) => outcome matches Ok(b) && b == answer,
            None => outcome matches Err(EvalError::Raised { name, reason }) && name@ == "TypeError"@
                && reason@ == none_order_reason(),
        },
{
    let answer: bool = match op {
        CompareOp::Equal => order == Some(Order::Equal),
        CompareOp::NotEqual => order != Some(Order::Equal),
        _ => {
            if with_none {
                return Err(type_error("None 不支持大小比较。"));
            }
            match op {
                CompareOp::Less => order == Some(Order::Less),
                CompareOp::LessEqual => order == Some(Order::Less) || order == Some(Order::Equal),
                CompareOp::Greater => order == Some(Order::Greater),
                _ => order == Some(Order::Greater) || order == Some(Order::Equal),
            }
        },
    };
    Ok(answer)
}

/// What an integer power comes to before any multiplying is done.
#[derive(Clone, Copy, Debug, PartialEq, Eq, Structural)]
pub enum PowerPlan {
    /// A negative exponent: the power is taken in floating point.
    Float,
    One,
    Zero,
    MinusOne,
    /// Multiply the base out this many times.
    Raise(u32),
    /// The result would be wider than [`MAX_INTEGER_BITS`].
    TooWide,
}

/// What an integer power of a checked base comes to, from the facts about its operands
/// that decide it: a negative exponent goes to floating point; `0 ** 0` is 1 and `0 ** n`
/// is 0; a base of 1 or -1 gives 1 or -1 without multiplying; otherwise the power is raised
/// only while `exponent * (base_bits - 1)` stays under [`MAX_INTEGER_BITS`]. `exponent` is
/// the exponent where it fits a `u32`.
pub open spec fn spec_power_plan(
    exponent_negative: bool,
    exponent_zero: bool,
    exponent_odd: bool,
    exponent: Option<u32>,
    base_zero: bool,
    base_unit: bool,
    base_negative: bool,
    base_bits: u64,
) -> PowerPlan {
    if exponent_negative {
        PowerPlan::Float
    } else if base_zero {
        if exponent_zero {
            PowerPlan::One
        } else {
            PowerPlan::Zero
        }
    } else if base_unit {
        if base_negative && exponent_odd {
            PowerPlan::MinusOne
        } else {
            PowerPlan::One
        }
    } else {
        match exponent {
            Some(e) => if e * (base_bits - 1) < MAX_INTEGER_BITS {
                PowerPlan::Raise(e)
            } else {
                PowerPlan::TooWide
            },
            None => PowerPlan::TooWide,
        }
    }
}

/// Plan an integer power, as [`spec_power_plan`] says.
pub fn power_plan(
    exponent_negative: bool,
    exponent_zero: bool,
    exponent_odd: bool,
    exponent: Option<u32>,
    base_zero: bool,
    base_unit: bool,
    base_negative: bool,
    base_bits: u64,
) -> (plan: PowerPlan)
    requires
        base_bits <= MAX_INTEGER_BITS,
        base_zero || base_bits >= 1,
    ensures
        plan == spec_power_plan(
            exponent_negative,
            exponent_zero,
            exponent_odd,
            exponent,
            base_zero,
            base_unit,
            base_negative,
            base_bits,
        ),
{
    if exponent_negative {
        PowerPlan::Float
    } else if base_zero {
        if exponent_zero {
            PowerPlan::One
        } else {
            PowerPlan::Zero
        }
    } else if base_unit {
        if base_negative && exponent_odd {
            PowerPlan::MinusOne
        } else {
            PowerPlan::One
        }
    } else {
        match exponent {
            Some(e) => {
                let width: u64 = base_bits - 1;
                assert(e * width <= 0xFFFF_FFFFu64 * 4096u64) by (nonlinear_arith)
                    requires
                        e <= 0xFFFF_FFFFu64,
                        width <= 4096,
                ;
                let e64: u64 = e as u64;
                if e64 * width < MAX_INTEGER_BITS {
                    PowerPlan::Raise(e)
                } else {
                    PowerPlan::TooWide
                }
            },
            None => PowerPlan::TooWide,
        }
    }
}

/// Why a power is refused when its result would be too wide.
pub open spec fn power_limit_reason() -> Seq<char> {
    "乘方结果超过整数位数限制。"@
}

/// The limit a too-wide power hits.
pub fn power_limit() -> (limit: EvalError)
    ensures
        limit matches EvalError::Limit(reason) && reason@ == power_limit_reason(),
{
    EvalError::Limit(String::from_str("乘方结果超过整数位数限制。"))
}

/// Why an `and` or `or` returns the operand it returns. `shown` is that operand as Python
/// prints it and `kind` its type; `truthy` is how it tests; `skipped` tells whether later
/// operands are skipped. With short circuit off, every operand was evaluated first; with it
/// on, the operand is either the last one evaluated or the one that decided.
pub open spec fn spec_bool_explanation(
    op: BoolOp,
    mode: EvaluationMode,
    shown: Seq<char>,
    kind: Seq<char>,
    truthy: bool,
    skipped: bool,
) -> Seq<char> {
    if mode == EvaluationMode::Eager {
        "短路已关闭：所有操作数均已求值，再按 "@ + spec_bool_symbol(op) + " 的操作数返回规则得到 "@ + shown
            + "（"@ + kind + "）。这是教学变体，不是 Python 的执行策略。"@
    } else if !skipped {
        spec_bool_symbol(op) + " 返回最后求值的操作数 "@ + shown + "（"@ + kind + "），不会强制转成 bool。"@
    } else {
        "短路求值："@ + spec_bool_symbol(op) + " 遇到"@ + (if truthy {
            "真"@
        } else {
            "假"@
        }) + "值 "@ + shown + "，直接返回该操作数（"@ + kind + "），跳过后面的子树。"@
    }
}

pub fn bool_explanation(
    op: BoolOp,
    mode: EvaluationMode,
    shown: &str,
    kind: &str,
    truthy: bool,
    skipped: bool,
) -> (text: String)
    ensures
        text@ == spec_bool_explanation(op, mode, shown@, kind@, truthy, skipped),
{
    let mut text: String;
    if mode == EvaluationMode::Eager {
        text = String::from_str("短路已关闭：所有操作数均已求值，再按 ");
        text.append(op.symbol());
        text.append(" 的操作数返回规则得到 ");
        text.append(shown);
        text.append("（");
        text.append(kind);
        text.append("）。这是教学变体，不是 Python 的执行策略。");
    } else if !skipped {
        text = String::from_str(op.symbol());
        text.append(" 返回最后求值的操作数 ");
        text.append(shown);
        text.append("（");
        text.append(kind);
        text.append("），不会强制转成 bool。");
    } else {
        text = String::from_str("短路求值：");
        text.append(op.symbol());
        text.append(" 遇到");
        text.append(if truthy { "真" } else { "假" });
        text.append("值 ");
        text.append(shown);
        text.append("，直接返回该操作数（");
        text.append(kind);
        text.append("），跳过后面的子树。");
    }
    text
}

/// Why a bound Python name becomes its value: every occurrence of the name takes it.
pub open spec fn spec_binding_explanation(name: Seq<char>, shown: Seq<char>, kind: Seq<char>) -> Seq<char> {
    "根据本题赋值，将所有同名变量 "@ + name + " 代入为 "@ + shown + "（"@ + kind + "）。"@
}

pub fn binding_explanation(name: &str, shown: &str, kind: &str) -> (text: String)
    ensures
        text@ == spec_binding_explanation(name@, shown@, kind@),
{
    let mut text: String = String::from_str("根据本题赋值，将所有同名变量 ");
    text.append(name);
    text.append(" 代入为 ");
    text.append(shown);
    text.append("（");
    text.append(kind);
    text.append("）。");
    text
}

/// What a comparison step says.
pub const COMPARISON_RULE: &'static str = "比较两个已经求值的操作数，返回 True 或 False。";


/// How two numbers stand to each other.
pub open spec fn order_of(a: int, b: int) -> Order {
    if a < b {
        Order::Less
    } else if a == b {
        Order::Equal
    } else {
        Order::Greater
    }
}

/// A comparison of two numbers answers as the numbers compare: `<` exactly when the left
/// one is smaller, `<=`, `>`, `>=`, `==` and `!=` likewise; `>` is `<` with the operands
/// swapped. Operands that cannot be ordered (a NaN) are unequal and never smaller, larger
/// or equal; with `None` on either side only `==` and `!=` answer, and the others raise.
pub proof fn law_comparisons_answer_as_numbers_compare(a: int, b: int, op: CompareOp)
    ensures
        spec_compare_outcome(CompareOp::Less, Some(order_of(a, b)), false) == Some(a < b),
        spec_compare_outcome(CompareOp::LessEqual, Some(order_of(a, b)), false) == Some(a <= b),
        spec_compare_outcome(CompareOp::Greater, Some(order_of(a, b)), false) == Some(a > b),
        spec_compare_outcome(CompareOp::GreaterEqual, Some(order_of(a, b)), false) == Some(a >= b),
        spec_compare_outcome(CompareOp::Equal, Some(order_of(a, b)), false) == Some(a == b),
        spec_compare_outcome(CompareOp::NotEqual, Some(order_of(a, b)), false) == Some(a != b),
        spec_compare_outcome(CompareOp::Greater, Some(order_of(a, b)), false)
            == spec_compare_outcome(CompareOp::Less, Some(order_of(b, a)), false),
        spec_compare_outcome(CompareOp::GreaterEqual, Some(order_of(a, b)), false)
            == spec_compare_outcome(CompareOp::LessEqual, Some(order_of(b, a)), false),
        spec_compare_outcome(op, None, false) == Some(op == CompareOp::NotEqual),
        spec_compare_outcome(CompareOp::Equal, Some(order_of(a, b)), true) == Some(a == b),
        spec_compare_outcome(CompareOp::NotEqual, Some(order_of(a, b)), true) == Some(a != b),
        (op != CompareOp::Equal && op != CompareOp::NotEqual) ==> spec_compare_outcome(
            op,
            Some(order_of(a, b)),
            true,
        ) is None,
{
}

/// Python's precedence, highest first: `**`, unary sign, the multiplicative operators,
/// `+` and `-`, comparisons, `not`, `and`, `or`; the operators of one row rank alike.
pub proof fn law_python_precedence(
    multiplicative: BinaryOp,
    additive: BinaryOp,
    sign: UnaryOp,
    comparison: CompareOp,
)
    requires
        multiplicative == BinaryOp::Multiply || multiplicative == BinaryOp::Divide || multiplicative
            == BinaryOp::FloorDivide || multiplicative == BinaryOp::Modulo,
        additive == BinaryOp::Add || additive == BinaryOp::Subtract,
        sign == UnaryOp::Positive || sign == UnaryOp::Negative,
    ensures
        spec_precedence(Op::Binary(BinaryOp::Power)) > spec_precedence(Op::Unary(sign)),
        spec_precedence(Op::Unary(sign)) > spec_precedence(Op::Binary(multiplicative)),
        spec_precedence(Op::Binary(multiplicative)) > spec_precedence(Op::Binary(additive)),
        spec_precedence(Op::Binary(additive)) > spec_precedence(Op::Compare(comparison)),
        spec_precedence(Op::Compare(comparison)) > spec_precedence(Op::Unary(UnaryOp::Not)),
        spec_precedence(Op::Unary(UnaryOp::Not)) > spec_precedence(Op::Bool(BoolOp::And)),
        spec_precedence(Op::Bool(BoolOp::And)) > spec_precedence(Op::Bool(BoolOp::Or)),
        spec_precedence(Op::Binary(multiplicative)) == spec_precedence(Op::Binary(BinaryOp::Multiply)),
        spec_precedence(Op::Binary(additive)) == spec_precedence(Op::Binary(BinaryOp::Add)),
        spec_precedence(Op::Unary(sign)) == spec_precedence(Op::Unary(UnaryOp::Negative)),
        spec_precedence(Op::Compare(comparison)) == spec_precedence(Op::Compare(CompareOp::Equal)),
{
}

} // verus!
