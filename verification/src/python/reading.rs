//! How a Python expression's syntax becomes a teaching tree: which kinds of node and which
//! operators this version teaches, the limits on its size, and the explicit brackets the
//! syntax tree drops, recovered from the tokens. The parser's own tree is walked by the
//! front end, which names each node and operator here in the words of Python's grammar.

use vstd::prelude::*;

use crate::python::{
    spec_binary_symbol, spec_compare_symbol, spec_unary_symbol, BinaryOp, CompareOp, UnaryOp,
};
use crate::teaching::ParseError;

verus! {

/// The operators Python's grammar allows between two operands.
#[derive(Clone, Copy, Debug, PartialEq, Eq, Structural)]
pub enum GrammarBinary {
    Add,
    Sub,
    Mult,
    MatMult,
    Div,
    Mod,
    Pow,
    LShift,
    RShift,
    BitOr,
    BitXor,
    BitAnd,
    FloorDiv,
}

/// The operators Python's grammar allows before one operand.
#[derive(Clone, Copy, Debug, PartialEq, Eq, Structural)]
pub enum GrammarUnary {
    Invert,
    Not,
    UAdd,
    USub,
}

/// The comparison operators of Python's grammar.
#[derive(Clone, Copy, Debug, PartialEq, Eq, Structural)]
pub enum GrammarCompare {
    Eq,
    NotEq,
    Lt,
    LtE,
    Gt,
    GtE,
    Is,
    IsNot,
    In,
    NotIn,
}

/// The kinds of constant Python's grammar has, as far as this version tells them apart.
#[derive(Clone, Copy, Debug, PartialEq, Eq, Structural)]
pub enum GrammarConstant {
    Bool,
    Int,
    Float,
    NoneValue,
    /// A string, bytes, a complex number, an ellipsis or a tuple.
    Other,
}

pub open spec fn other_operator() -> Seq<char> {
    "首版支持 +、-、*、/、//、%、**，暂不支持其他运算符。"@
}

pub open spec fn bitwise() -> Seq<char> {
    "暂不支持按位运算。"@
}

pub open spec fn identity_or_membership() -> Seq<char> {
    "暂不支持 is、in 或其否定形式。"@
}

pub open spec fn chained_comparison() -> Seq<char> {
    "首版暂不支持链式比较（如 1 < 2 < 3）；请使用单个比较。"@
}

pub open spec fn other_constant() -> Seq<char> {
    "首版仅支持整数、有限浮点数、True、False 和 None；暂不支持字符串、复数或容器。"@
}

pub open spec fn other_expression() -> Seq<char> {
    "首版仅支持纯表达式；函数调用、赋值、条件表达式和容器暂不支持。"@
}

pub open spec fn too_large() -> Seq<char> {
    "首版最多支持 128 个节点、32 层表达式。"@
}

/// The arithmetic operator taught for a grammar operator: the seven of arithmetic, and
/// none of the bitwise ones or matrix multiplication.
pub open spec fn spec_binary(op: GrammarBinary) -> Option<BinaryOp> {
    match op {
        GrammarBinary::Add => Some(BinaryOp::Add),
        GrammarBinary::Sub => Some(BinaryOp::Subtract),
        GrammarBinary::Mult => Some(BinaryOp::Multiply),
        GrammarBinary::Div => Some(BinaryOp::Divide),
        GrammarBinary::FloorDiv => Some(BinaryOp::FloorDivide),
        GrammarBinary::Mod => Some(BinaryOp::Modulo),
        GrammarBinary::Pow => Some(BinaryOp::Power),
        _ => None,
    }
}

pub fn binary(op: GrammarBinary) -> (taught: Result<BinaryOp, ParseError>)
    ensures
        match spec_binary(op) {
            Some(b) => taught matches Ok(t) && t == b,
            None => taught matches Err(e) && e.0@ == other_operator(),
        },
{
    match op {
        GrammarBinary::Add => Ok(BinaryOp::Add),
        GrammarBinary::Sub => Ok(BinaryOp::Subtract),
        GrammarBinary::Mult => Ok(BinaryOp::Multiply),
        GrammarBinary::Div => Ok(BinaryOp::Divide),
        GrammarBinary::FloorDiv => Ok(BinaryOp::FloorDivide),
        GrammarBinary::Mod => Ok(BinaryOp::Modulo),
        GrammarBinary::Pow => Ok(BinaryOp::Power),
        _ => Err(ParseError::from_str("首版支持 +、-、*、/、//、%、**，暂不支持其他运算符。")),
    }
}

/// The sign or negation taught for a grammar operator; `~` is bitwise and is not taught.
pub open spec fn spec_unary(op: GrammarUnary) -> Option<UnaryOp> {
    match op {
        GrammarUnary::UAdd => Some(UnaryOp::Positive),
        GrammarUnary::USub => Some(UnaryOp::Negative),
        GrammarUnary::Not => Some(UnaryOp::Not),
        GrammarUnary::Invert => None,
    }
}

pub fn unary(op: GrammarUnary) -> (taught: Result<UnaryOp, ParseError>)
    ensures
        match spec_unary(op) {
            Some(u) => taught matches Ok(t) && t == u,
            None => taught matches Err(e) && e.0@ == bitwise(),
        },
{
    match op {
        GrammarUnary::UAdd => Ok(UnaryOp::Positive),
        GrammarUnary::USub => Ok(UnaryOp::Negative),
        GrammarUnary::Not => Ok(UnaryOp::Not),
        GrammarUnary::Invert => Err(ParseError::from_str("暂不支持按位运算。")),
    }
}

/// The comparison taught for a grammar comparison: one of the six orderings and
/// equalities, never identity or membership, and only alone: a chain is not taught.
pub open spec fn spec_compare(ops: Seq<GrammarCompare>) -> Result<CompareOp, Seq<char>> {
    if ops.len() != 1 {
        Err(chained_comparison())
    } else {
        match ops[0] {
            GrammarCompare::Eq => Ok(CompareOp::Equal),
            GrammarCompare::NotEq => Ok(CompareOp::NotEqual),
            GrammarCompare::Lt => Ok(CompareOp::Less),
            GrammarCompare::LtE => Ok(CompareOp::LessEqual),
            GrammarCompare::Gt => Ok(CompareOp::Greater),
            GrammarCompare::GtE => Ok(CompareOp::GreaterEqual),
            _ => Err(identity_or_membership()),
        }
    }
}

pub fn compare(ops: &Vec<GrammarCompare>) -> (taught: Result<CompareOp, ParseError>)
    ensures
        match spec_compare(ops@) {
            Ok(c) => taught matches Ok(t) && t == c,
            Err(m) => taught matches Err(e) && e.0@ == m,
        },
{
    if ops.len() != 1 {
        return Err(ParseError::from_str("首版暂不支持链式比较（如 1 < 2 < 3）；请使用单个比较。"));
    }
    match ops[0] {
        GrammarCompare::Eq => Ok(CompareOp::Equal),
        GrammarCompare::NotEq => Ok(CompareOp::NotEqual),
        GrammarCompare::Lt => Ok(CompareOp::Less),
        GrammarCompare::LtE => Ok(CompareOp::LessEqual),
        GrammarCompare::Gt => Ok(CompareOp::Greater),
        GrammarCompare::GtE => Ok(CompareOp::GreaterEqual),
        _ => Err(ParseError::from_str("暂不支持 is、in 或其否定形式。")),
    }
}

/// A constant is taught when it is an integer, a float, a truth value or `None`.
pub fn constant(kind: GrammarConstant) -> (taught: Result<(), ParseError>)
    ensures
        kind == GrammarConstant::Other ==> (taught matches Err(e) && e.0@ == other_constant()),
        kind != GrammarConstant::Other ==> taught is Ok,
{
    match kind {
        GrammarConstant::Other => Err(
            ParseError::from_str("首版仅支持整数、有限浮点数、True、False 和 None；暂不支持字符串、复数或容器。"),
        ),
        _ => Ok(()),
    }
}

/// Any other kind of expression (a call, a conditional, a container, ...) is refused.
pub fn other_kind() -> (refusal: ParseError)
    ensures
        refusal.0@ == other_expression(),
{
    ParseError::from_str("首版仅支持纯表达式；函数调用、赋值、条件表达式和容器暂不支持。")
}

/// A node may be added at `depth` when it is at most 32 deep and fewer than 128 nodes
/// came before it.
pub fn room_for_node(depth: usize, nodes: usize) -> (room: Result<(), ParseError>)
    ensures
        depth <= 32 && nodes < 128 ==> room is Ok,
        !(depth <= 32 && nodes < 128) ==> (room matches Err(e) && e.0@ == too_large()),
{
    if depth > 32 || nodes >= 128 {
        Err(ParseError::from_str("首版最多支持 128 个节点、32 层表达式。"))
    } else {
        Ok(())
    }
}

pub open spec fn spec_unbound(name: Seq<char>) -> Seq<char> {
    "未给变量 "@ + name + " 赋值；使用 --assign "@ + name + "=3。"@
}

/// A name the question gives no value.
pub fn unbound(name: &str) -> (refusal: ParseError)
    ensures
        refusal.0@ == spec_unbound(name@),
{
    let mut text: String = String::from_str("未给变量 ");
    text.append(name);
    text.append(" 赋值；使用 --assign ");
    text.append(name);
    text.append("=3。");
    ParseError::new(text)
}

pub open spec fn spec_unused(name: Seq<char>) -> Seq<char> {
    "表达式中没有变量 "@ + name + "。"@
}

/// A value given for a name the expression does not use.
pub fn unused(name: &str) -> (refusal: ParseError)
    ensures
        refusal.0@ == spec_unused(name@),
{
    let mut text: String = String::from_str("表达式中没有变量 ");
    text.append(name);
    text.append("。");
    ParseError::new(text)
}

pub open spec fn too_long() -> Seq<char> {
    "表达式最多 2048 字节。"@
}

pub open spec fn too_nested() -> Seq<char> {
    "括号最多嵌套 32 层。"@
}

/// How deeply brackets of any kind are nested after each of the first `n` characters,
/// where a closing bracket never takes the count below zero.
pub open spec fn nesting(source: Seq<char>, n: nat) -> nat
    decreases n,
{
    if n == 0 || n > source.len() {
        0
    } else {
        let before: nat = nesting(source, (n - 1) as nat);
        let c: char = source[n - 1];
        if c == '(' || c == '[' || c == '{' {
            before + 1
        } else if c == ')' || c == ']' || c == '}' {
            if before > 0 {
                (before - 1) as nat
            } else {
                0
            }
        } else {
            before
        }
    }
}

/// Whether brackets nest more than 32 deep somewhere in the source.
pub open spec fn nests_too_deep(source: Seq<char>) -> bool {
    exists|n: nat| 1 <= n <= source.len() && nesting(source, n) > 32
}

/// A source, `bytes` long in UTF-8, can be read when it is at most 2048 bytes and its
/// brackets nest at most 32 deep.
pub fn source_fits(source: &str, bytes: usize) -> (fits: Result<(), ParseError>)
    ensures
        bytes > 2048 ==> (fits matches Err(e) && e.0@ == too_long()),
        bytes <= 2048 && nests_too_deep(source@) ==> (fits matches Err(e) && e.0@ == too_nested()),
        bytes <= 2048 && !nests_too_deep(source@) ==> fits is Ok,
{
    if bytes > 2048 {
        return Err(ParseError::from_str("表达式最多 2048 字节。"));
    }
    let chars: Vec<char> = crate::text::chars_of(source);
    let mut depth: usize = 0;
    let mut i: usize = 0;
    while i < chars.len()
        invariant
            i <= chars.len(),
            chars@ == source@,
            bytes <= 2048,
            depth == nesting(source@, i as nat),
            depth <= 32,
            forall|n: nat| 1 <= n <= i ==> nesting(source@, n) <= 32,
        decreases chars.len() - i,
    {
        let c: char = chars[i];
        if c == '(' || c == '[' || c == '{' {
            depth = depth + 1;
        } else if c == ')' || c == ']' || c == '}' {
            if depth > 0 {
                depth = depth - 1;
            }
        }
        assert(depth == nesting(source@, (i + 1) as nat));
        if depth > 32 {
            assert(nests_too_deep(source@));
            return Err(ParseError::from_str("括号最多嵌套 32 层。"));
        }
        i += 1;
    }
    proof {
        assert forall|n: nat| 1 <= n <= source@.len() implies nesting(source@, n) <= 32 by {}
    }
    Ok(())
}

/// A token as far as bracket matching cares, with its span in bytes.
#[derive(Clone, Copy, Debug, PartialEq, Eq, Structural)]
pub struct Bracketing {
    pub opens: bool,
    pub closes: bool,
    pub start: usize,
    pub end: usize,
}

/// One matched pair of brackets: the span inside them, from the first token after the
/// opening one to the last before the closing one, and the span including them.
#[derive(Clone, Copy, Debug, PartialEq, Eq, Structural)]
pub struct Pair {
    pub inner_start: usize,
    pub inner_end: usize,
    pub outer_start: usize,
    pub outer_end: usize,
}

/// Matching the brackets among the first `n` tokens: the pairs in the order they close,
/// and the positions of the brackets still open; `None` where a closing bracket has no
/// opening one.
pub open spec fn spec_pairs(tokens: Seq<Bracketing>, n: nat) -> Option<(Seq<Pair>, Seq<int>)>
    decreases n,
{
    if n == 0 || n > tokens.len() {
        Some((Seq::empty(), Seq::empty()))
    } else {
        match spec_pairs(tokens, (n - 1) as nat) {
            None => None,
            Some((pairs, open)) => {
                let i: int = n - 1;
                let t: Bracketing = tokens[i];
                if t.opens {
                    Some((pairs, open.push(i)))
                } else if t.closes {
                    if open.len() == 0 {
                        None
                    } else {
                        let start: int = open.last();
                        Some(
                            (
                                pairs.push(
                                    Pair {
                                        inner_start: tokens[start + 1].start,
                                        inner_end: tokens[i - 1].end,
                                        outer_start: tokens[start].start,
                                        outer_end: t.end,
                                    },
                                ),
                                open.drop_last(),
                            ),
                        )
                    }
                } else {
                    Some((pairs, open))
                }
            },
        }
    }
}

proof fn lemma_unmatched_stays(tokens: Seq<Bracketing>, n: nat, m: nat)
    requires
        n <= m <= tokens.len(),
        spec_pairs(tokens, n) is None,
    ensures
        spec_pairs(tokens, m) is None,
    decreases m - n,
{
    if n < m {
        lemma_unmatched_stays(tokens, n + 1, m);
    }
}

/// The bracket pairs of a token list, innermost first as they close; `None` where a
/// closing bracket has no opening one.
pub fn bracket_pairs(tokens: &Vec<Bracketing>) -> (pairs: Option<Vec<Pair>>)
    ensures
        match spec_pairs(tokens@, tokens.len() as nat) {
            Some((p, _)) => pairs matches Some(v) && v@ == p,
            None => pairs is None,
        },
{
    let mut pairs: Vec<Pair> = Vec::new();
    let mut open: Vec<usize> = Vec::new();
    let mut i: usize = 0;
    while i < tokens.len()
        invariant
            i <= tokens.len(),
            spec_pairs(tokens@, i as nat) matches Some((p, o)) && p == pairs@ && o == open@.map_values(
                |k: usize| k as int,
            ),
            forall|k: int| 0 <= k < open.len() ==> open@[k] < i,
        decreases tokens.len() - i,
    {
        let t: Bracketing = tokens[i];
        if t.opens {
            open.push(i);
            proof {
                assert(open@.map_values(|k: usize| k as int) =~= spec_pairs(tokens@, i as nat)->Some_0.1.push(
                    i as int,
                ));
            }
        } else if t.closes {
            if open.len() == 0 {
                proof {
                    assert(spec_pairs(tokens@, (i + 1) as nat) is None);
                    lemma_unmatched_stays(tokens@, (i + 1) as nat, tokens.len() as nat);
                }
                return None;
            }
            let start: usize = open[open.len() - 1];
            assert(start < i);
            let ghost before = open@;
            open.pop();
            pairs.push(
                Pair {
                    inner_start: tokens[start + 1].start,
                    inner_end: tokens[i - 1].end,
                    outer_start: tokens[start].start,
                    outer_end: t.end,
                },
            );
            proof {
                assert(open@ =~= before.drop_last());
                assert(open@.map_values(|k: usize| k as int) =~= before.map_values(
                    |k: usize| k as int,
                ).drop_last());
            }
        }
        i += 1;
    }
    Some(pairs)
}

pub open spec fn unmatched() -> Seq<char> {
    "无法匹配分组括号。"@
}

pub open spec fn too_many_groups() -> Seq<char> {
    "包含括号的表达式最多 128 个节点。"@
}

pub open spec fn groups_too_deep() -> Seq<char> {
    "包含括号的表达式最多嵌套 32 层。"@
}

/// A bracketed group may be added when fewer than 128 nodes came before it.
pub fn room_for_group(nodes: usize) -> (room: Result<(), ParseError>)
    ensures
        nodes < 128 ==> room is Ok,
        nodes >= 128 ==> (room matches Err(e) && e.0@ == too_many_groups()),
{
    if nodes >= 128 {
        Err(ParseError::from_str("包含括号的表达式最多 128 个节点。"))
    } else {
        Ok(())
    }
}

/// A bracket pair that encloses no node of the tree.
pub fn unmatched_group() -> (refusal: ParseError)
    ensures
        refusal.0@ == unmatched(),
{
    ParseError::from_str("无法匹配分组括号。")
}

/// The tree with its groups may be at most 32 deep.
pub fn groups_fit(deepest: usize) -> (fits: Result<(), ParseError>)
    ensures
        deepest <= 32 ==> fits is Ok,
        deepest > 32 ==> (fits matches Err(e) && e.0@ == groups_too_deep()),
{
    if deepest > 32 {
        Err(ParseError::from_str("包含括号的表达式最多嵌套 32 层。"))
    } else {
        Ok(())
    }
}

/// What a typed answer turned out to be, once parsed as an expression.
#[derive(Clone, Copy, Debug, PartialEq, Eq, Structural)]
pub enum AnswerShape {
    /// A literal.
    Literal,
    /// A sign in front of one operand; `number` tells whether that operand is a number
    /// literal.
    Signed { number: bool },
    /// Anything else.
    Expression,
}

/// How a typed answer is read.
#[derive(Clone, Copy, Debug, PartialEq, Eq, Structural)]
pub enum AnswerReading {
    /// The literal is the answer.
    AsWritten,
    /// The sign is applied to the number literal it stands before.
    Signed,
}

pub open spec fn signed_expression() -> Seq<char> {
    "请输入一个值，不要填写待计算的表达式。"@
}

pub open spec fn not_a_value() -> Seq<char> {
    "请输入一个值（例如 -3、2.0、False），不要填写待计算的表达式。"@
}

/// An answer is a literal, or a sign in front of a number literal; a student's expression
/// is never evaluated as an answer.
pub open spec fn spec_answer(shape: AnswerShape) -> Result<AnswerReading, Seq<char>> {
    match shape {
        AnswerShape::Literal => Ok(AnswerReading::AsWritten),
        AnswerShape::Signed { number } => if number {
            Ok(AnswerReading::Signed)
        } else {
            Err(signed_expression())
        },
        AnswerShape::Expression => Err(not_a_value()),
    }
}

pub fn answer(shape: AnswerShape) -> (reading: Result<AnswerReading, ParseError>)
    ensures
        match spec_answer(shape) {
            Ok(r) => reading matches Ok(x) && x == r,
            Err(m) => reading matches Err(e) && e.0@ == m,
        },
{
    match shape {
        AnswerShape::Literal => Ok(AnswerReading::AsWritten),
        AnswerShape::Signed { number } => {
            if number {
                Ok(AnswerReading::Signed)
            } else {
                Err(ParseError::from_str("请输入一个值，不要填写待计算的表达式。"))
            }
        },
        AnswerShape::Expression => Err(
            ParseError::from_str("请输入一个值（例如 -3、2.0、False），不要填写待计算的表达式。"),
        ),
    }
}


/// How Python's source spells each binary operator of its grammar.
pub open spec fn source_binary(op: GrammarBinary) -> Seq<char> {
    match op {
        GrammarBinary::Add => "+"@,
        GrammarBinary::Sub => "-"@,
        GrammarBinary::Mult => "*"@,
        GrammarBinary::MatMult => "@"@,
        GrammarBinary::Div => "/"@,
        GrammarBinary::Mod => "%"@,
        GrammarBinary::Pow => "**"@,
        GrammarBinary::LShift => "<<"@,
        GrammarBinary::RShift => ">>"@,
        GrammarBinary::BitOr => "|"@,
        GrammarBinary::BitXor => "^"@,
        GrammarBinary::BitAnd => "&"@,
        GrammarBinary::FloorDiv => "//"@,
    }
}

/// How Python's source spells each comparison of its grammar.
pub open spec fn source_compare(op: GrammarCompare) -> Seq<char> {
    match op {
        GrammarCompare::Eq => "=="@,
        GrammarCompare::NotEq => "!="@,
        GrammarCompare::Lt => "<"@,
        GrammarCompare::LtE => "<="@,
        GrammarCompare::Gt => ">"@,
        GrammarCompare::GtE => ">="@,
        GrammarCompare::Is => "is"@,
        GrammarCompare::IsNot => "is not"@,
        GrammarCompare::In => "in"@,
        GrammarCompare::NotIn => "not in"@,
    }
}

/// How Python's source spells each prefix operator of its grammar.
pub open spec fn source_unary(op: GrammarUnary) -> Seq<char> {
    match op {
        GrammarUnary::Invert => "~"@,
        GrammarUnary::Not => "not "@,
        GrammarUnary::UAdd => "+"@,
        GrammarUnary::USub => "-"@,
    }
}

/// A taught operator is the one the source wrote: its symbol is the grammar operator's
/// own spelling, so `/` stays true division, `//` floor division and `%` modulo. Exactly
/// the seven arithmetic operators are taught, no two grammar operators become the same
/// one, and the same holds of comparisons and prefix operators.
pub proof fn law_taught_operators_are_the_ones_written(
    a: GrammarBinary,
    b: GrammarBinary,
    c: GrammarCompare,
    d: GrammarCompare,
    u: GrammarUnary,
    v: GrammarUnary,
)
    ensures
        spec_binary(a) matches Some(t) ==> spec_binary_symbol(t) == source_binary(a),
        spec_binary(a) is Some <==> (a == GrammarBinary::Add || a == GrammarBinary::Sub || a
            == GrammarBinary::Mult || a == GrammarBinary::Div || a == GrammarBinary::FloorDiv || a
            == GrammarBinary::Mod || a == GrammarBinary::Pow),
        spec_binary(a) is Some && spec_binary(a) == spec_binary(b) ==> a == b,
        spec_compare(seq![c]) matches Ok(t) ==> spec_compare_symbol(t) == source_compare(c),
        spec_compare(seq![c]) is Ok && spec_compare(seq![c]) == spec_compare(seq![d]) ==> c == d,
        spec_unary(u) matches Some(t) ==> spec_unary_symbol(t) == source_unary(u),
        spec_unary(u) is Some && spec_unary(u) == spec_unary(v) ==> u == v,
{
}

} // verus!
