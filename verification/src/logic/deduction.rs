//! Classical natural deduction, checked line by line. Each line is `formula ; rule ;
//! references`; assumptions open nested scopes that an introduction rule discharges.

use vstd::prelude::*;

use crate::logic::formula::{debug_list, holds, spec_debug, spec_debug_list, Formula, FormulaV, LogicOp};
use crate::logic::parse::{parse_formula, spec_parse_formula};
use crate::teaching::ParseError;
use crate::text::{
    chars_of, decimal, decimal_string, parse_usize, parse_usize_chars, split, split_chars, trim,
    trim_chars, string_of, lemma_split_nonempty,
};

verus! {

/// The rule reference a student can open from the practice.
pub const RULES: &'static str = "格式：公式 ; 规则 ; 引用行（逗号分隔的行号）\n前提是第 1 至 n 行，之后每接受一行编号加一\n例：第 3 行 A→B、第 5 行 A，写 B ; mp ; 3,5\nassume 假设，无引用；其后的行缩进，属于这个子证明\nmp 肯定前件 / →消去，引用 A→B 和 A\nand-intro ∧引入，引用 A 和 B\nand-left / and-right ∧消去，引用 A∧B\nor-left / or-right ∨引入，引用对应一侧\nnot-elim 矛盾，引用 A 和 ¬A，填写 ⊥\nimp-intro →引入，引用假设行,末行，关闭子证明\nnot-intro ¬引入，引用假设行,矛盾末行\nraa 反证法，引用否定假设行,矛盾末行\niff-intro ↔引入，引用 A→B 和 B→A\niff-left / iff-right ↔消去，得对应蕴涵\nbottom-elim ⊥消去；copy 重申，引用一行\n子证明必须关闭最内层假设；不允许引用已关闭子证明内部的行。";

/// One accepted line: the formula, the rule that justified it, the lines it cited, and
/// the assumption lines (1-based) it sits under.
#[derive(Debug)]
pub struct ProofLine {
    pub formula: Formula,
    pub rule: String,
    pub references: Vec<usize>,
    pub scope: Vec<usize>,
}

pub struct LineV {
    pub formula: FormulaV,
    pub rule: Seq<char>,
    pub references: Seq<usize>,
    pub scope: Seq<usize>,
}

pub open spec fn line_view(line: ProofLine) -> LineV {
    LineV {
        formula: line.formula@,
        rule: line.rule@,
        references: line.references@,
        scope: line.scope@,
    }
}

impl View for ProofLine {
    type V = LineV;

    open spec fn view(&self) -> LineV {
        line_view(*self)
    }
}

/// A proof in progress, as the rules see it.
pub struct ProofV {
    pub premises: Seq<FormulaV>,
    pub goal: FormulaV,
    pub lines: Seq<LineV>,
    pub open: Seq<usize>,
    pub commands: Seq<Seq<char>>,
}

pub open spec fn premise_line(f: FormulaV) -> LineV {
    LineV { formula: f, rule: "premise"@, references: Seq::empty(), scope: Seq::empty() }
}

/// A proof with only its premises, numbered 1 to n.
pub open spec fn initial(premises: Seq<FormulaV>, goal: FormulaV) -> ProofV {
    ProofV {
        premises,
        goal,
        lines: premises.map_values(|f: FormulaV| premise_line(f)),
        open: Seq::empty(),
        commands: Seq::empty(),
    }
}

/// Finished: no assumption is open and the goal stands on a line outside every assumption.
pub open spec fn spec_finished(p: ProofV) -> bool {
    &&& p.open.len() == 0
    &&& exists|i: int|
        0 <= i < p.lines.len() && (#[trigger] p.lines[i]).scope.len() == 0 && p.lines[i].formula
            == p.goal
}

pub open spec fn msg_done() -> Seq<char> {
    "结论已在所有假设之外得到；证明已完成。可撤销或切换练习。"@
}

pub open spec fn msg_too_long() -> Seq<char> {
    "首版每份证明最多 256 行。"@
}

pub open spec fn msg_format() -> Seq<char> {
    "格式：公式 ; 规则 ; 引用行。例如 B ; mp ; 3,5"@
}

pub open spec fn msg_references() -> Seq<char> {
    "引用行必须是以逗号分隔的正整数。"@
}

pub open spec fn msg_assume_references() -> Seq<char> {
    "假设不引用其他行。"@
}

pub open spec fn msg_too_deep() -> Seq<char> {
    "子证明最多嵌套 16 层。"@
}

pub open spec fn msg_discharge() -> Seq<char> {
    "必须引用当前最内层的假设行和该子证明的最后一行；不能跨层解除假设。"@
}

pub open spec fn msg_missing(number: nat) -> Seq<char> {
    "第 "@ + decimal(number) + " 行不存在；只能引用已有行。"@
}

pub open spec fn msg_closed(number: nat) -> Seq<char> {
    "第 "@ + decimal(number) + " 行属于已关闭的子证明，当前不可引用。"@
}

pub open spec fn msg_mismatch(rule: Seq<char>) -> Seq<char> {
    "这一步不符合 "@ + rule
        + " 的规则或引用数量。请检查公式的结构、引用行及规则说明；语义等价不等于应用了该规则。"@
}

/// What the feedback says about a rule once a line is accepted.
pub open spec fn explanation(rule: Seq<char>) -> Seq<char> {
    if rule == "assume"@ {
        "已打开一个假设；子证明中的结论不能直接带到假设之外。"@
    } else if rule == "mp"@ {
        "肯定前件：由 A→B 和 A 推出 B。不能由 B 反推 A。"@
    } else if rule == "raa"@ {
        "反证法：假设 ¬A 后推出矛盾，解除该假设，得到 A（经典逻辑）。"@
    } else if rule == "imp-intro"@ {
        "蕴涵引入：在假设 A 下得到 B，解除假设，得到 A→B。"@
    } else if rule == "not-intro"@ {
        "否定引入：在假设 A 下得到矛盾，解除假设，得到 ¬A。"@
    } else if rule == "not-elim"@ {
        "一个命题与它的否定同时成立，得到矛盾 ⊥。"@
    } else {
        "公式、引用行和假设作用域均符合该规则。"@
    }
}

pub open spec fn finish_note(p: ProofV) -> Seq<char> {
    if spec_finished(p) {
        " 目标已在所有假设之外成立，证明完成。"@
    } else {
        Seq::empty()
    }
}

/// The line-number field: empty, or comma-separated numbers each read after trimming.
pub open spec fn spec_references(parts: Seq<Seq<char>>) -> Option<Seq<usize>> {
    if parts.len() > 2 && parts[2].len() > 0 {
        let pieces = split(parts[2], ',');
        if forall|k: int| 0 <= k < pieces.len() ==> parse_usize(trim(#[trigger] pieces[k])) is Some {
            Some(Seq::new(pieces.len(), |k: int| parse_usize(trim(pieces[k]))->0 as usize))
        } else {
            None
        }
    } else {
        Some(Seq::empty())
    }
}

/// The formula at a cited line, or why it may not be cited from here.
pub open spec fn spec_accessible(p: ProofV, number: usize) -> Result<FormulaV, Seq<char>> {
    if number < 1 || number > p.lines.len() {
        Err(msg_missing(number as nat))
    } else if !p.lines[number - 1].scope.is_prefix_of(p.open) {
        Err(msg_closed(number as nat))
    } else {
        Ok(p.lines[number - 1].formula)
    }
}

/// The formulas of the first `n` references, or the first refusal among them.
pub open spec fn spec_cite(p: ProofV, refs: Seq<usize>, n: nat) -> Result<Seq<FormulaV>, Seq<char>>
    decreases n,
{
    if n == 0 {
        Ok(Seq::empty())
    } else {
        match spec_cite(p, refs, (n - 1) as nat) {
            Err(e) => Err(e),
            Ok(fs) => match spec_accessible(p, refs[n - 1]) {
                Err(e) => Err(e),
                Ok(f) => Ok(fs.push(f)),
            },
        }
    }
}

/// `formula` is `premise → conclusion`.
pub open spec fn is_implication(formula: FormulaV, premise: FormulaV, conclusion: FormulaV) -> bool {
    formula == FormulaV::Binary(LogicOp::Implies, Box::new(premise), Box::new(conclusion))
}

/// `negative` is `¬positive`.
pub open spec fn is_negation(negative: FormulaV, positive: FormulaV) -> bool {
    negative == FormulaV::Not(Box::new(positive))
}

pub open spec fn bottom() -> FormulaV {
    FormulaV::Constant(false)
}

/// Whether a rule that discharges no assumption derives `f` from the cited formulas.
pub open spec fn plain_rule_matches(rule: Seq<char>, cited: Seq<FormulaV>, f: FormulaV) -> bool {
    if rule == "mp"@ {
        cited.len() == 2 && (is_implication(cited[0], cited[1], f) || is_implication(
            cited[1],
            cited[0],
            f,
        ))
    } else if rule == "copy"@ {
        cited.len() == 1 && cited[0] == f
    } else if rule == "and-intro"@ {
        cited.len() == 2 && f == FormulaV::Binary(
            LogicOp::And,
            Box::new(cited[0]),
            Box::new(cited[1]),
        )
    } else if rule == "and-left"@ {
        cited.len() == 1 && (cited[0] matches FormulaV::Binary(LogicOp::And, left, _) && *left
            == f)
    } else if rule == "and-right"@ {
        cited.len() == 1 && (cited[0] matches FormulaV::Binary(LogicOp::And, _, right) && *right
            == f)
    } else if rule == "or-left"@ {
        cited.len() == 1 && (f matches FormulaV::Binary(LogicOp::Or, left, _) && *left
            == cited[0])
    } else if rule == "or-right"@ {
        cited.len() == 1 && (f matches FormulaV::Binary(LogicOp::Or, _, right) && *right
            == cited[0])
    } else if rule == "not-elim"@ {
        cited.len() == 2 && f == bottom() && (is_negation(cited[0], cited[1]) || is_negation(
            cited[1],
            cited[0],
        ))
    } else if rule == "bottom-elim"@ {
        cited.len() == 1 && cited[0] == bottom()
    } else if rule == "iff-left"@ {
        cited.len() == 1 && (cited[0] matches FormulaV::Binary(LogicOp::Iff, left, right) && f
            == FormulaV::Binary(LogicOp::Implies, left, right))
    } else if rule == "iff-right"@ {
        cited.len() == 1 && (cited[0] matches FormulaV::Binary(LogicOp::Iff, left, right) && f
            == FormulaV::Binary(LogicOp::Implies, right, left))
    } else if rule == "iff-intro"@ {
        cited.len() == 2 && (f matches FormulaV::Binary(LogicOp::Iff, left, right) && ((
        is_implication(cited[0], *left, *right) && is_implication(cited[1], *right, *left)) || (
        is_implication(cited[1], *left, *right) && is_implication(cited[0], *right, *left))))
    } else {
        false
    }
}

pub open spec fn is_discharge(rule: Seq<char>) -> bool {
    rule == "imp-intro"@ || rule == "not-intro"@ || rule == "raa"@
}

/// Whether a discharging rule derives `f` from the assumption and the sub-proof's last line.
pub open spec fn discharge_matches(
    rule: Seq<char>,
    assumption: FormulaV,
    end: FormulaV,
    f: FormulaV,
) -> bool {
    if rule == "imp-intro"@ {
        is_implication(f, assumption, end)
    } else if rule == "not-intro"@ {
        end == bottom() && is_negation(f, assumption)
    } else {
        end == bottom() && is_negation(assumption, f)
    }
}

/// The references of a discharge name the innermost open assumption and the last line,
/// which sits directly under it.
pub open spec fn discharge_well_placed(p: ProofV, refs: Seq<usize>) -> bool {
    &&& p.open.len() > 0
    &&& p.open.last() == refs[0]
    &&& refs[1] == p.lines.len()
    &&& p.lines.len() > 0
    &&& p.lines.last().scope == p.open
}

/// The proof with one more line, justified by `rule`, under `scope`.
pub open spec fn extend(
    p: ProofV,
    f: FormulaV,
    rule: Seq<char>,
    refs: Seq<usize>,
    scope: Seq<usize>,
    command: Seq<char>,
) -> ProofV {
    ProofV {
        lines: p.lines.push(LineV { formula: f, rule, references: refs, scope }),
        open: scope,
        commands: p.commands.push(command),
        ..p
    }
}

pub open spec fn accepted(q: ProofV, rule: Seq<char>) -> (ProofV, Seq<char>) {
    (q, "正确。"@ + explanation(rule) + finish_note(q))
}

/// Check one line against the rules once its formula, rule and references are read.
pub open spec fn spec_apply_rule(
    p: ProofV,
    f: FormulaV,
    rule: Seq<char>,
    refs: Seq<usize>,
    command: Seq<char>,
) -> Result<(ProofV, Seq<char>), Seq<char>> {
    if rule == "assume"@ {
        if refs.len() > 0 {
            Err(msg_assume_references())
        } else if p.open.len() >= 16 {
            Err(msg_too_deep())
        } else {
            Ok(
                accepted(
                    extend(p, f, rule, refs, p.open.push((p.lines.len() + 1) as usize), command),
                    rule,
                ),
            )
        }
    } else {
        match spec_cite(p, refs, refs.len()) {
            Err(e) => Err(e),
            Ok(cited) => if is_discharge(rule) && cited.len() == 2 {
                if !discharge_well_placed(p, refs) {
                    Err(msg_discharge())
                } else if discharge_matches(rule, cited[0], cited[1], f) {
                    Ok(accepted(extend(p, f, rule, refs, p.open.drop_last(), command), rule))
                } else {
                    Err(msg_mismatch(rule))
                }
            } else if plain_rule_matches(rule, cited, f) {
                Ok(accepted(extend(p, f, rule, refs, p.open, command), rule))
            } else {
                Err(msg_mismatch(rule))
            },
        }
    }
}

/// The pieces of a command between semicolons, each trimmed.
pub open spec fn command_parts(command: Seq<char>) -> Seq<Seq<char>> {
    split(command, ';').map_values(|piece: Seq<char>| trim(piece))
}

/// Check one command and, when the rules accept it, the proof it extends to and the
/// explanation the student reads.
pub open spec fn spec_submit(p: ProofV, command: Seq<char>) -> Result<(ProofV, Seq<char>), Seq<char>> {
    let parts = command_parts(command);
    if spec_finished(p) {
        Err(msg_done())
    } else if p.lines.len() >= 256 {
        Err(msg_too_long())
    } else if !(2 <= parts.len() <= 3) {
        Err(msg_format())
    } else {
        match spec_parse_formula(parts[0]) {
            Err(e) => Err(e),
            Ok(f) => match spec_references(parts) {
                None => Err(msg_references()),
                Some(refs) => spec_apply_rule(p, f, parts[1], refs, command),
            },
        }
    }
}

/// Submit every command in turn from `p`; the first refusal stops the replay.
pub open spec fn replay_from(p: ProofV, commands: Seq<Seq<char>>) -> Result<ProofV, Seq<char>>
    decreases commands.len(),
{
    if commands.len() == 0 {
        Ok(p)
    } else {
        match replay_from(p, commands.drop_last()) {
            Err(e) => Err(e),
            Ok(q) => match spec_submit(q, commands.last()) {
                Err(e) => Err(e),
                Ok((r, _)) => Ok(r),
            },
        }
    }
}

/// Every accepted command appends exactly one line and records the command.
pub proof fn lemma_submit_shape(p: ProofV, command: Seq<char>)
    requires
        spec_submit(p, command) is Ok,
    ensures
        ({
            let q = spec_submit(p, command)->Ok_0.0;
            &&& q.premises == p.premises
            &&& q.goal == p.goal
            &&& q.lines.len() == p.lines.len() + 1
            &&& q.lines.subrange(0, p.lines.len() as int) == p.lines
            &&& q.commands == p.commands.push(command)
        }),
{
    let q = spec_submit(p, command)->Ok_0.0;
    assert(q.lines.subrange(0, p.lines.len() as int) =~= p.lines);
}

/// A replayed proof holds exactly the commands it replayed, in order.
pub proof fn lemma_replay_commands(p: ProofV, commands: Seq<Seq<char>>)
    requires
        replay_from(p, commands) is Ok,
    ensures
        replay_from(p, commands)->Ok_0.commands == p.commands + commands,
        replay_from(p, commands)->Ok_0.premises == p.premises,
        replay_from(p, commands)->Ok_0.goal == p.goal,
    decreases commands.len(),
{
    if commands.len() == 0 {
        assert(p.commands + commands =~= p.commands);
    } else {
        lemma_replay_commands(p, commands.drop_last());
        let q = replay_from(p, commands.drop_last())->Ok_0;
        lemma_submit_shape(q, commands.last());
        assert(p.commands + commands.drop_last() + seq![commands.last()] =~= p.commands
            + commands);
    }
}

// ---------------------------------------------------------------------------------------
// Soundness: what a line states follows from the premises and the assumptions it sits
// under, under every valuation.

pub open spec fn premises_hold(premises: Seq<FormulaV>, truths: Set<Seq<char>>) -> bool {
    forall|i: int| 0 <= i < premises.len() ==> holds(#[trigger] premises[i], truths)
}

/// Every assumption line listed in `scope` holds.
pub open spec fn scope_holds(lines: Seq<LineV>, scope: Seq<usize>, truths: Set<Seq<char>>) -> bool {
    forall|j: int|
        0 <= j < scope.len() ==> 1 <= #[trigger] scope[j] <= lines.len() && holds(
            lines[scope[j] - 1].formula,
            truths,
        )
}

/// Scopes only name lines that exist: a line's own assumptions come no later than itself.
pub open spec fn scopes_in_range(p: ProofV) -> bool {
    &&& forall|i: int, j: int|
        0 <= i < p.lines.len() && 0 <= j < p.lines[i].scope.len() ==> 1 <= #[trigger] p.lines[i].scope[j]
            <= i + 1
    &&& forall|j: int| 0 <= j < p.open.len() ==> 1 <= #[trigger] p.open[j] <= p.lines.len()
}

/// Every line is a consequence of the premises and of the assumptions it sits under.
pub open spec fn sound(p: ProofV) -> bool {
    forall|i: int, truths: Set<Seq<char>>|
        0 <= i < p.lines.len() && premises_hold(p.premises, truths) && scope_holds(
            p.lines,
            p.lines[i].scope,
            truths,
        ) ==> #[trigger] holds(p.lines[i].formula, truths)
}

proof fn lemma_initial_sound(premises: Seq<FormulaV>, goal: FormulaV)
    ensures
        sound(initial(premises, goal)),
        scopes_in_range(initial(premises, goal)),
{
    let p = initial(premises, goal);
    assert forall|i: int, truths: Set<Seq<char>>|
        0 <= i < p.lines.len() && premises_hold(p.premises, truths) && scope_holds(
            p.lines,
            p.lines[i].scope,
            truths,
        ) implies #[trigger] holds(p.lines[i].formula, truths) by {
        assert(p.lines[i].formula == premises[i]);
    }
}

/// A scope that is a prefix of another holds whenever the longer one does.
proof fn lemma_prefix_scope(lines: Seq<LineV>, short: Seq<usize>, long: Seq<usize>, truths: Set<Seq<char>>)
    requires
        short.is_prefix_of(long),
        scope_holds(lines, long, truths),
    ensures
        scope_holds(lines, short, truths),
{
    assert forall|j: int| 0 <= j < short.len() implies 1 <= #[trigger] short[j] <= lines.len()
        && holds(lines[short[j] - 1].formula, truths) by {
        assert(short[j] == long[j]);
    }
}

/// Scopes over old lines mean the same once a line is appended.
proof fn lemma_scope_after_push(lines: Seq<LineV>, line: LineV, scope: Seq<usize>, truths: Set<Seq<char>>)
    requires
        forall|j: int| 0 <= j < scope.len() ==> 1 <= #[trigger] scope[j] <= lines.len(),
    ensures
        scope_holds(lines.push(line), scope, truths) == scope_holds(lines, scope, truths),
{
    if scope_holds(lines, scope, truths) {
        assert forall|j: int| 0 <= j < scope.len() implies 1 <= #[trigger] scope[j]
            <= lines.push(line).len() && holds(lines.push(line)[scope[j] - 1].formula, truths) by {
            assert(lines.push(line)[scope[j] - 1] == lines[scope[j] - 1]);
        }
    }
    if scope_holds(lines.push(line), scope, truths) {
        assert forall|j: int| 0 <= j < scope.len() implies 1 <= #[trigger] scope[j] <= lines.len()
            && holds(lines[scope[j] - 1].formula, truths) by {
            assert(lines.push(line)[scope[j] - 1] == lines[scope[j] - 1]);
        }
    }
}

/// The formulas `spec_cite` returns are those at accessible cited lines.
proof fn lemma_cite(p: ProofV, refs: Seq<usize>, n: nat)
    requires
        n <= refs.len(),
        spec_cite(p, refs, n) is Ok,
    ensures
        spec_cite(p, refs, n)->Ok_0.len() == n,
        forall|k: int|
            0 <= k < n ==> 1 <= #[trigger] refs[k] <= p.lines.len() && p.lines[refs[k]
                - 1].scope.is_prefix_of(p.open) && spec_cite(p, refs, n)->Ok_0[k] == p.lines[refs[k]
                - 1].formula,
    decreases n,
{
    if n > 0 {
        lemma_cite(p, refs, (n - 1) as nat);
    }
}

/// A cited formula holds wherever the current open scope does.
proof fn lemma_cited_holds(p: ProofV, refs: Seq<usize>, k: int, truths: Set<Seq<char>>)
    requires
        sound(p),
        0 <= k < refs.len(),
        spec_cite(p, refs, refs.len()) is Ok,
        premises_hold(p.premises, truths),
        scope_holds(p.lines, p.open, truths),
    ensures
        holds(spec_cite(p, refs, refs.len())->Ok_0[k], truths),
{
    lemma_cite(p, refs, refs.len());
    let line = p.lines[refs[k] - 1];
    lemma_prefix_scope(p.lines, line.scope, p.open, truths);
    assert(holds(p.lines[refs[k] - 1].formula, truths));
}

/// Each rule that discharges nothing is truth-preserving under the open scope.
proof fn lemma_plain_rule_sound(p: ProofV, f: FormulaV, rule: Seq<char>, refs: Seq<usize>, truths: Set<Seq<char>>)
    requires
        sound(p),
        spec_cite(p, refs, refs.len()) is Ok,
        plain_rule_matches(rule, spec_cite(p, refs, refs.len())->Ok_0, f),
        premises_hold(p.premises, truths),
        scope_holds(p.lines, p.open, truths),
    ensures
        holds(f, truths),
{
    let cited = spec_cite(p, refs, refs.len())->Ok_0;
    lemma_cite(p, refs, refs.len());
    if cited.len() >= 1 {
        lemma_cited_holds(p, refs, 0, truths);
    }
    if cited.len() >= 2 {
        lemma_cited_holds(p, refs, 1, truths);
    }
}

/// Accepting a line keeps every line a consequence of the premises and its assumptions.
proof fn lemma_apply_rule_sound(p: ProofV, f: FormulaV, rule: Seq<char>, refs: Seq<usize>, command: Seq<char>)
    requires
        p.lines.len() < 256,
        sound(p),
        scopes_in_range(p),
        spec_apply_rule(p, f, rule, refs, command) is Ok,
    ensures
        sound(spec_apply_rule(p, f, rule, refs, command)->Ok_0.0),
        scopes_in_range(spec_apply_rule(p, f, rule, refs, command)->Ok_0.0),
{
    let q = spec_apply_rule(p, f, rule, refs, command)->Ok_0.0;
    let new_line = q.lines.last();
    assert(q.lines == p.lines.push(new_line));
    let n = p.lines.len();
    // Old lines keep their meaning.
    assert forall|i: int, truths: Set<Seq<char>>|
        0 <= i < q.lines.len() && premises_hold(q.premises, truths) && scope_holds(
            q.lines,
            q.lines[i].scope,
            truths,
        ) implies #[trigger] holds(q.lines[i].formula, truths) by {
        if i < n {
            assert(q.lines[i] == p.lines[i]);
            assert forall|j: int| 0 <= j < p.lines[i].scope.len() implies 1
                <= #[trigger] p.lines[i].scope[j] <= p.lines.len() by {
                assert(1 <= p.lines[i].scope[j] <= i + 1);
            }
            lemma_scope_after_push(p.lines, new_line, p.lines[i].scope, truths);
        } else {
            assert(i == n);
            if rule == "assume"@ {
                // The new assumption holds by the scope it opens.
                let j = q.lines[i].scope.len() - 1;
                assert(q.lines[i].scope[j] == n + 1);
            } else {
                let cited = spec_cite(p, refs, refs.len())->Ok_0;
                lemma_cite(p, refs, refs.len());
                if is_discharge(rule) && cited.len() == 2 {
                    let inner = p.open;
                    let outer = p.open.drop_last();
                    assert(q.lines[i].scope == outer);
                    assert forall|j: int| 0 <= j < outer.len() implies 1 <= #[trigger] outer[j]
                        <= p.lines.len() by {
                        assert(outer[j] == inner[j]);
                    }
                    lemma_scope_after_push(p.lines, new_line, outer, truths);
                    let a = refs[0];
                    // Under the assumption, the whole inner scope holds, and so does the
                    // sub-proof's last line.
                    if holds(p.lines[a - 1].formula, truths) {
                        assert(scope_holds(p.lines, inner, truths)) by {
                            assert forall|j: int| 0 <= j < inner.len() implies 1
                                <= #[trigger] inner[j] <= p.lines.len() && holds(
                                p.lines[inner[j] - 1].formula,
                                truths,
                            ) by {
                                if j < outer.len() {
                                    assert(inner[j] == outer[j]);
                                } else {
                                    assert(inner[j] == a);
                                }
                            }
                        }
                        assert(holds(p.lines[n - 1].formula, truths));
                    }
                } else {
                    assert forall|j: int| 0 <= j < p.open.len() implies 1 <= #[trigger] p.open[j]
                        <= p.lines.len() by {
                    }
                    lemma_scope_after_push(p.lines, new_line, p.open, truths);
                    lemma_plain_rule_sound(p, f, rule, refs, truths);
                }
            }
        }
    }
    // Scopes still name existing lines.
    assert forall|i: int, j: int|
        0 <= i < q.lines.len() && 0 <= j < q.lines[i].scope.len() implies 1
            <= #[trigger] q.lines[i].scope[j] <= i + 1 by {
        if i < n {
            assert(q.lines[i] == p.lines[i]);
        } else if rule == "assume"@ {
            if j < p.open.len() {
                assert(q.lines[i].scope[j] == p.open[j]);
            }
        } else if is_discharge(rule) && spec_cite(p, refs, refs.len())->Ok_0.len() == 2 {
            assert(q.lines[i].scope[j] == p.open[j]);
        } else {
            assert(q.lines[i].scope[j] == p.open[j]);
        }
    }
    assert forall|j: int| 0 <= j < q.open.len() implies 1 <= #[trigger] q.open[j]
        <= q.lines.len() by {
        if rule == "assume"@ {
            if j < p.open.len() {
                assert(q.open[j] == p.open[j]);
            }
        } else {
            assert(q.open[j] == p.open[j]);
        }
    }
}

proof fn lemma_submit_sound(p: ProofV, command: Seq<char>)
    requires
        sound(p),
        scopes_in_range(p),
        spec_submit(p, command) is Ok,
    ensures
        sound(spec_submit(p, command)->Ok_0.0),
        scopes_in_range(spec_submit(p, command)->Ok_0.0),
{
    let parts = command_parts(command);
    let f = spec_parse_formula(parts[0])->Ok_0;
    let refs = spec_references(parts)->0;
    lemma_apply_rule_sound(p, f, parts[1], refs, command);
}

pub proof fn lemma_replay_sound(premises: Seq<FormulaV>, goal: FormulaV, commands: Seq<Seq<char>>)
    requires
        replay_from(initial(premises, goal), commands) is Ok,
    ensures
        sound(replay_from(initial(premises, goal), commands)->Ok_0),
        scopes_in_range(replay_from(initial(premises, goal), commands)->Ok_0),
    decreases commands.len(),
{
    if commands.len() == 0 {
        lemma_initial_sound(premises, goal);
    } else {
        lemma_replay_sound(premises, goal, commands.drop_last());
        let q = replay_from(initial(premises, goal), commands.drop_last())->Ok_0;
        lemma_submit_sound(q, commands.last());
    }
}

/// A finished proof is valid: under every valuation that makes the premises true, the goal
/// is true. Whatever commands were replayed, the rules never accept a proof of something
/// the premises do not entail.
pub proof fn law_finished_proof_is_valid(
    premises: Seq<FormulaV>,
    goal: FormulaV,
    commands: Seq<Seq<char>>,
    truths: Set<Seq<char>>,
)
    requires
        replay_from(initial(premises, goal), commands) is Ok,
        spec_finished(replay_from(initial(premises, goal), commands)->Ok_0),
        premises_hold(premises, truths),
    ensures
        holds(goal, truths),
{
    lemma_replay_sound(premises, goal, commands);
    lemma_replay_commands(initial(premises, goal), commands);
    let p = replay_from(initial(premises, goal), commands)->Ok_0;
    let i = choose|i: int|
        0 <= i < p.lines.len() && (#[trigger] p.lines[i]).scope.len() == 0 && p.lines[i].formula
            == p.goal;
    assert(scope_holds(p.lines, p.lines[i].scope, truths));
}

} // verus!

verus! {

/// A natural-deduction proof in progress: its premises and goal, the lines accepted so far,
/// the assumptions still open, and the commands that produced them.
#[derive(Debug)]
pub struct Proof {
    premises: Vec<Formula>,
    goal: Formula,
    lines: Vec<ProofLine>,
    open: Vec<usize>,
    commands: Vec<String>,
}

pub open spec fn formulas_view(fs: Seq<Formula>) -> Seq<FormulaV> {
    fs.map_values(|f: Formula| f@)
}

pub open spec fn lines_view(ls: Seq<ProofLine>) -> Seq<LineV> {
    ls.map_values(|l: ProofLine| l@)
}

pub open spec fn texts_view(ts: Seq<String>) -> Seq<Seq<char>> {
    ts.map_values(|t: String| t@)
}

impl View for Proof {
    type V = ProofV;

    closed spec fn view(&self) -> ProofV {
        ProofV {
            premises: formulas_view(self.premises@),
            goal: self.goal@,
            lines: lines_view(self.lines@),
            open: self.open@,
            commands: texts_view(self.commands@),
        }
    }
}

/// The rendering of a proof line a progress key or a transcript reads.
pub open spec fn spec_progress_key(p: ProofV) -> Seq<char> {
    "proof\n"@ + spec_debug_list(p.premises) + "\n"@ + crate::logic::formula::spec_render(p.goal)
}

fn rule_is(rule: &Vec<char>, name: &str) -> (r: bool)
    ensures
        r == (rule@ == name@),
{
    let expected: Vec<char> = chars_of(name);
    crate::text::same_chars(rule, &expected)
}

fn implication(formula: &Formula, premise: &Formula, conclusion: &Formula) -> (r: bool)
    ensures
        r == is_implication(formula@, premise@, conclusion@),
{
    match formula {
        Formula::Binary(LogicOp::Implies, left, right) => left.equals(premise) && right.equals(
            conclusion,
        ),
        _ => false,
    }
}

fn negation(negative: &Formula, positive: &Formula) -> (r: bool)
    ensures
        r == is_negation(negative@, positive@),
{
    match negative {
        Formula::Not(child) => child.equals(positive),
        _ => false,
    }
}

fn is_bottom(f: &Formula) -> (r: bool)
    ensures
        r == (f@ == bottom()),
{
    match f {
        Formula::Constant(false) => true,
        _ => false,
    }
}

fn plain_matches(rule: &Vec<char>, cited: &Vec<Formula>, f: &Formula) -> (r: bool)
    ensures
        r == plain_rule_matches(rule@, formulas_view(cited@), f@),
{
    let ghost cv = formulas_view(cited@);
    if rule_is(rule, "mp") {
        cited.len() == 2 && (implication(&cited[0], &cited[1], f) || implication(
            &cited[1],
            &cited[0],
            f,
        ))
    } else if rule_is(rule, "copy") {
        cited.len() == 1 && cited[0].equals(f)
    } else if rule_is(rule, "and-intro") {
        cited.len() == 2 && match f {
            Formula::Binary(LogicOp::And, left, right) => left.equals(&cited[0]) && right.equals(
                &cited[1],
            ),
            _ => false,
        }
    } else if rule_is(rule, "and-left") {
        cited.len() == 1 && match &cited[0] {
            Formula::Binary(LogicOp::And, left, _) => left.equals(f),
            _ => false,
        }
    } else if rule_is(rule, "and-right") {
        cited.len() == 1 && match &cited[0] {
            Formula::Binary(LogicOp::And, _, right) => right.equals(f),
            _ => false,
        }
    } else if rule_is(rule, "or-left") {
        cited.len() == 1 && match f {
            Formula::Binary(LogicOp::Or, left, _) => left.equals(&cited[0]),
            _ => false,
        }
    } else if rule_is(rule, "or-right") {
        cited.len() == 1 && match f {
            Formula::Binary(LogicOp::Or, _, right) => right.equals(&cited[0]),
            _ => false,
        }
    } else if rule_is(rule, "not-elim") {
        cited.len() == 2 && is_bottom(f) && (negation(&cited[0], &cited[1]) || negation(
            &cited[1],
            &cited[0],
        ))
    } else if rule_is(rule, "bottom-elim") {
        cited.len() == 1 && is_bottom(&cited[0])
    } else if rule_is(rule, "iff-left") {
        cited.len() == 1 && match &cited[0] {
            Formula::Binary(LogicOp::Iff, left, right) => implication(f, left, right),
            _ => false,
        }
    } else if rule_is(rule, "iff-right") {
        cited.len() == 1 && match &cited[0] {
            Formula::Binary(LogicOp::Iff, left, right) => implication(f, right, left),
            _ => false,
        }
    } else if rule_is(rule, "iff-intro") {
        cited.len() == 2 && match f {
            Formula::Binary(LogicOp::Iff, left, right) => (implication(&cited[0], left, right)
                && implication(&cited[1], right, left)) || (implication(&cited[1], left, right)
                && implication(&cited[0], right, left)),
            _ => false,
        }
    } else {
        false
    }
}

fn discharge_rule(rule: &Vec<char>) -> (r: bool)
    ensures
        r == is_discharge(rule@),
{
    rule_is(rule, "imp-intro") || rule_is(rule, "not-intro") || rule_is(rule, "raa")
}

fn discharges(rule: &Vec<char>, assumption: &Formula, end: &Formula, f: &Formula) -> (r: bool)
    ensures
        r == discharge_matches(rule@, assumption@, end@, f@),
{
    if rule_is(rule, "imp-intro") {
        implication(f, assumption, end)
    } else if rule_is(rule, "not-intro") {
        is_bottom(end) && negation(f, assumption)
    } else {
        is_bottom(end) && negation(assumption, f)
    }
}

fn explain(rule: &Vec<char>) -> (text: &'static str)
    ensures
        text@ == explanation(rule@),
{
    if rule_is(rule, "assume") {
        "已打开一个假设；子证明中的结论不能直接带到假设之外。"
    } else if rule_is(rule, "mp") {
        "肯定前件：由 A→B 和 A 推出 B。不能由 B 反推 A。"
    } else if rule_is(rule, "raa") {
        "反证法：假设 ¬A 后推出矛盾，解除该假设，得到 A（经典逻辑）。"
    } else if rule_is(rule, "imp-intro") {
        "蕴涵引入：在假设 A 下得到 B，解除假设，得到 A→B。"
    } else if rule_is(rule, "not-intro") {
        "否定引入：在假设 A 下得到矛盾，解除假设，得到 ¬A。"
    } else if rule_is(rule, "not-elim") {
        "一个命题与它的否定同时成立，得到矛盾 ⊥。"
    } else {
        "公式、引用行和假设作用域均符合该规则。"
    }
}

/// Read the line-number field of a command.
pub open spec fn chars_views(parts: Seq<Vec<char>>) -> Seq<Seq<char>> {
    parts.map_values(|p: Vec<char>| p@)
}

fn references(parts: &Vec<Vec<char>>) -> (refs: Option<Vec<usize>>)
    ensures
        match spec_references(chars_views(parts@)) {
            Some(r) => refs matches Some(v) && v@ == r,
            None => refs is None,
        },
{
    let ghost pv = chars_views(parts@);
    if parts.len() > 2 && parts[2].len() > 0 {
        assert(pv[2] == parts@[2]@);
        let pieces: Vec<Vec<char>> = split_chars(&parts[2], ',');
        let ghost sp = split(pv[2], ',');
        let mut refs: Vec<usize> = Vec::new();
        let mut k: usize = 0;
        while k < pieces.len()
            invariant
                pv == chars_views(parts@),
                pv.len() > 2,
                pv[2].len() > 0,
                sp == split(pv[2], ','),
                pieces@.len() == sp.len(),
                forall|m: int| 0 <= m < pieces@.len() ==> #[trigger] pieces@[m]@ == sp[m],
                k <= pieces.len(),
                refs@.len() == k,
                forall|m: int| 0 <= m < k ==> parse_usize(trim(#[trigger] sp[m])) is Some,
                forall|m: int|
                    0 <= m < k ==> refs@[m] as nat == parse_usize(trim(#[trigger] sp[m]))->0,
            decreases pieces.len() - k,
        {
            let trimmed: Vec<char> = trim_chars(&pieces[k]);
            match parse_usize_chars(&trimmed) {
                Some(n) => {
                    refs.push(n);
                },
                None => {
                    proof {
                        assert(pieces@[k as int]@ == sp[k as int]);
                        assert(parse_usize(trim(sp[k as int])) is None);
                        assert(pv.len() > 2 && pv[2].len() > 0);
                        assert(!(forall|m: int|
                            0 <= m < sp.len() ==> parse_usize(trim(#[trigger] sp[m])) is Some));
                        assert(spec_references(pv) is None);
                    }
                    return None;
                },
            }
            k += 1;
        }
        proof {
            let r = Seq::new(sp.len(), |m: int| parse_usize(trim(sp[m]))->0 as usize);
            assert(refs@ =~= r);
        }
        Some(refs)
    } else {
        Some(Vec::new())
    }
}

/// The sentence for a line number that does not exist, or that sits in a closed scope.
fn line_message(prefix: &str, number: usize, suffix: &str) -> (text: String)
    ensures
        text@ == prefix@ + decimal(number as nat) + suffix@,
{
    let mut text: String = String::from_str(prefix);
    let digits: String = decimal_string(number);
    text.append(digits.as_str());
    text.append(suffix);
    text
}

fn same_prefix(short: &Vec<usize>, long: &Vec<usize>) -> (r: bool)
    ensures
        r == short@.is_prefix_of(long@),
{
    if short.len() > long.len() {
        return false;
    }
    let mut i: usize = 0;
    while i < short.len()
        invariant
            short.len() <= long.len(),
            i <= short.len(),
            forall|j: int| 0 <= j < i ==> short@[j] == long@[j],
        decreases short.len() - i,
    {
        if short[i] != long[i] {
            return false;
        }
        i += 1;
    }
    assert(short@ =~= long@.take(short.len() as int));
    true
}

fn same_numbers(a: &Vec<usize>, b: &Vec<usize>) -> (r: bool)
    ensures
        r == (a@ == b@),
{
    if a.len() != b.len() {
        return false;
    }
    let r: bool = same_prefix(a, b);
    proof {
        if r {
            assert(a@ =~= b@.take(a.len() as int));
            assert(b@.take(b.len() as int) =~= b@);
        }
    }
    r
}

fn copy_numbers(v: &Vec<usize>) -> (r: Vec<usize>)
    ensures
        r@ == v@,
{
    let mut r: Vec<usize> = Vec::new();
    let mut i: usize = 0;
    while i < v.len()
        invariant
            i <= v.len(),
            r@ == v@.take(i as int),
        decreases v.len() - i,
    {
        r.push(v[i]);
        assert(v@.take(i as int).push(v@[i as int]) =~= v@.take(i + 1));
        i += 1;
    }
    assert(v@.take(v.len() as int) =~= v@);
    r
}

impl ProofLine {
    /// An independent copy.
    pub fn duplicate(&self) -> (line: ProofLine)
        ensures
            line@ == self@,
    {
        ProofLine {
            formula: self.formula.duplicate(),
            rule: self.rule.clone(),
            references: copy_numbers(&self.references),
            scope: copy_numbers(&self.scope),
        }
    }
}

fn copy_formulas(v: &Vec<Formula>) -> (r: Vec<Formula>)
    ensures
        formulas_view(r@) == formulas_view(v@),
{
    let mut r: Vec<Formula> = Vec::new();
    let mut i: usize = 0;
    while i < v.len()
        invariant
            i <= v.len(),
            formulas_view(r@) == formulas_view(v@).take(i as int),
        decreases v.len() - i,
    {
        let ghost before = r@;
        let x: Formula = v[i].duplicate();
        r.push(x);
        assert(r@ =~= before.push(x));
        assert(formulas_view(r@) =~= formulas_view(before).push(x@));
        assert(formulas_view(v@).take(i + 1) =~= formulas_view(v@).take(i as int).push(v@[i as int]@));
        i += 1;
    }
    assert(formulas_view(v@).take(v.len() as int) =~= formulas_view(v@));
    r
}

fn copy_lines(v: &Vec<ProofLine>) -> (r: Vec<ProofLine>)
    ensures
        lines_view(r@) == lines_view(v@),
{
    let mut r: Vec<ProofLine> = Vec::new();
    let mut i: usize = 0;
    while i < v.len()
        invariant
            i <= v.len(),
            lines_view(r@) == lines_view(v@).take(i as int),
        decreases v.len() - i,
    {
        let ghost before = r@;
        let x: ProofLine = v[i].duplicate();
        r.push(x);
        assert(r@ =~= before.push(x));
        assert(lines_view(r@) =~= lines_view(before).push(x@));
        assert(lines_view(v@).take(i + 1) =~= lines_view(v@).take(i as int).push(v@[i as int]@));
        i += 1;
    }
    assert(lines_view(v@).take(v.len() as int) =~= lines_view(v@));
    r
}

fn copy_commands(v: &Vec<String>) -> (r: Vec<String>)
    ensures
        texts_view(r@) == texts_view(v@),
{
    let mut r: Vec<String> = Vec::new();
    let mut i: usize = 0;
    while i < v.len()
        invariant
            i <= v.len(),
            texts_view(r@) == texts_view(v@).take(i as int),
        decreases v.len() - i,
    {
        let ghost before = r@;
        let x: String = v[i].clone();
        r.push(x);
        assert(r@ =~= before.push(x));
        assert(texts_view(r@) =~= texts_view(before).push(x@));
        assert(texts_view(v@).take(i + 1) =~= texts_view(v@).take(i as int).push(v@[i as int]@));
        i += 1;
    }
    assert(texts_view(v@).take(v.len() as int) =~= texts_view(v@));
    r
}

impl Proof {
    /// Internally consistent: this is exactly the proof its commands replay to.
    pub closed spec fn wf(&self) -> bool {
        replay_from(initial(self@.premises, self@.goal), self@.commands) == Ok::<
            ProofV,
            Seq<char>,
        >(self@)
    }

    /// What well-formedness means: a proof is what replaying its own commands on its
    /// premises and goal gives, and any proof that is so is well formed.
    pub proof fn lemma_wf_is_replay(&self)
        ensures
            self.wf() <==> replay_from(initial(self@.premises, self@.goal), self@.commands) == Ok::<
                ProofV,
                Seq<char>,
            >(self@),
    {
    }

    /// An independent copy, as well formed as the original.
    pub fn duplicate(&self) -> (p: Proof)
        ensures
            p@ == self@,
            p.wf() == self.wf(),
    {
        Proof {
            premises: copy_formulas(&self.premises),
            goal: self.goal.duplicate(),
            lines: copy_lines(&self.lines),
            open: copy_numbers(&self.open),
            commands: copy_commands(&self.commands),
        }
    }

    /// The proof of `goal` from `premises`, which stand as lines 1 to n.
    pub fn new(premises: Vec<Formula>, goal: Formula) -> (proof: Proof)
        ensures
            proof.wf(),
            proof@ == initial(formulas_view(premises@), goal@),
    {
        let ghost pv = formulas_view(premises@);
        let mut lines: Vec<ProofLine> = Vec::new();
        let mut i: usize = 0;
        while i < premises.len()
            invariant
                i <= premises.len(),
                pv == formulas_view(premises@),
                lines_view(lines@) == pv.take(i as int).map_values(|f: FormulaV| premise_line(f)),
            decreases premises.len() - i,
        {
            let ghost earlier = lines@;
            let line = ProofLine {
                formula: premises[i].duplicate(),
                rule: String::from_str("premise"),
                references: Vec::new(),
                scope: Vec::new(),
            };
            proof {
                assert(line@.references =~= Seq::<usize>::empty());
                assert(line@.scope =~= Seq::<usize>::empty());
                assert(pv[i as int] == premises@[i as int]@);
                assert(line@ == premise_line(pv[i as int]));
            }
            lines.push(line);
            proof {
                assert(lines@ == earlier.push(line));
                assert(lines_view(lines@) =~= lines_view(earlier).push(line@));
                assert(pv.take(i + 1) =~= pv.take(i as int).push(pv[i as int]));
                assert(pv.take(i + 1).map_values(|f: FormulaV| premise_line(f)) =~= pv.take(
                    i as int,
                ).map_values(|f: FormulaV| premise_line(f)).push(premise_line(pv[i as int])));
            }
            i += 1;
        }
        proof {
            assert(pv.take(premises.len() as int) =~= pv);
        }
        let proof = Proof { premises, goal, lines, open: Vec::new(), commands: Vec::new() };
        proof {
            assert(proof@.commands =~= Seq::<Seq<char>>::empty());
            assert(proof@ == initial(pv, proof@.goal));
        }
        proof
    }

    pub fn goal(&self) -> (goal: &Formula)
        ensures
            goal@ == self@.goal,
    {
        &self.goal
    }

    pub fn premises(&self) -> (premises: &[Formula])
        ensures
            formulas_view(premises@) == self@.premises,
    {
        self.premises.as_slice()
    }

    pub fn lines(&self) -> (lines: &[ProofLine])
        ensures
            lines_view(lines@) == self@.lines,
    {
        self.lines.as_slice()
    }

    pub fn commands(&self) -> (commands: &[String])
        ensures
            texts_view(commands@) == self@.commands,
    {
        self.commands.as_slice()
    }

    /// The assumption lines still open, innermost last.
    pub fn open_assumptions(&self) -> (open: &[usize])
        ensures
            open@ == self@.open,
    {
        self.open.as_slice()
    }

    pub fn is_finished(&self) -> (finished: bool)
        ensures
            finished == spec_finished(self@),
    {
        if self.open.len() > 0 {
            return false;
        }
        let mut i: usize = 0;
        while i < self.lines.len()
            invariant
                i <= self.lines.len(),
                self.open@.len() == 0,
                forall|k: int|
                    0 <= k < i ==> !((#[trigger] self@.lines[k]).scope.len() == 0
                        && self@.lines[k].formula == self@.goal),
            decreases self.lines.len() - i,
        {
            assert(self@.lines[i as int] == self.lines@[i as int]@);
            if self.lines[i].scope.len() == 0 && self.lines[i].formula.equals(&self.goal) {
                return true;
            }
            i += 1;
        }
        false
    }

    /// The key saved progress is filed under: premises and goal, nothing else.
    pub fn progress_key(&self) -> (key: String)
        ensures
            key@ == spec_progress_key(self@),
    {
        let mut key: String = String::from_str("proof\n");
        let premises: String = debug_list(&self.premises);
        key.append(premises.as_str());
        key.append("\n");
        let goal: String = self.goal.render();
        key.append(goal.as_str());
        key
    }

    /// The formula at a line that may be cited from here.
    fn accessible(&self, number: usize) -> (result: Result<Formula, ParseError>)
        ensures
            match spec_accessible(self@, number) {
                Ok(f) => result matches Ok(r) && r@ == f,
                Err(e) => result matches Err(err) && err.0@ == e,
            },
    {
        if number < 1 || number > self.lines.len() {
            return Err(ParseError(line_message("第 ", number, " 行不存在；只能引用已有行。")));
        }
        assert(self@.lines[number - 1] == self.lines@[number - 1]@);
        let line: &ProofLine = &self.lines[number - 1];
        if !same_prefix(&line.scope, &self.open) {
            return Err(
                ParseError(line_message("第 ", number, " 行属于已关闭的子证明，当前不可引用。")),
            );
        }
        Ok(line.formula.duplicate())
    }

    fn cite(&self, refs: &Vec<usize>) -> (result: Result<Vec<Formula>, ParseError>)
        ensures
            match spec_cite(self@, refs@, refs@.len()) {
                Ok(fs) => result matches Ok(r) && formulas_view(r@) == fs,
                Err(e) => result matches Err(err) && err.0@ == e,
            },
    {
        let mut cited: Vec<Formula> = Vec::new();
        let mut k: usize = 0;
        assert(formulas_view(cited@) =~= Seq::<FormulaV>::empty());
        while k < refs.len()
            invariant
                k <= refs.len(),
                spec_cite(self@, refs@, k as nat) == Ok::<Seq<FormulaV>, Seq<char>>(
                    formulas_view(cited@),
                ),
            decreases refs.len() - k,
        {
            let f: Formula = match self.accessible(refs[k]) {
                Ok(f) => f,
                Err(e) => {
                    proof {
                        lemma_cite_prefix_err(self@, refs@, (k + 1) as nat, refs@.len());
                    }
                    return Err(e);
                },
            };
            proof {
                assert(formulas_view(cited@.push(f)) =~= formulas_view(cited@).push(f@));
            }
            cited.push(f);
            k += 1;
            proof {
                lemma_cite_prefix_err(self@, refs@, k as nat, refs@.len());
            }
        }
        Ok(cited)
    }

    /// Check one command. An accepted line extends the proof; a refused one leaves it
    /// exactly as it was and says why.
    pub fn submit(&mut self, command: &str) -> (result: Result<String, ParseError>)
        requires
            old(self).wf(),
        ensures
            final(self).wf(),
            match spec_submit(old(self)@, command@) {
                Ok((q, message)) => result matches Ok(m) && m@ == message && final(self)@ == q,
                Err(e) => result matches Err(err) && err.0@ == e && final(self)@ == old(self)@,
            },
    {
        let ghost before = self@;
        if self.is_finished() {
            return Err(ParseError::from_str(
                "结论已在所有假设之外得到；证明已完成。可撤销或切换练习。",
            ));
        }
        if self.lines.len() >= 256 {
            return Err(ParseError::from_str("首版每份证明最多 256 行。"));
        }
        let chars: Vec<char> = chars_of(command);
        let pieces: Vec<Vec<char>> = split_chars(&chars, ';');
        let mut parts: Vec<Vec<char>> = Vec::new();
        let mut k: usize = 0;
        while k < pieces.len()
            invariant
                k <= pieces.len(),
                parts@.len() == k,
                forall|m: int| 0 <= m < pieces@.len() ==> #[trigger] pieces@[m]@ == split(chars@, ';')[m],
                pieces@.len() == split(chars@, ';').len(),
                forall|m: int| 0 <= m < k ==> #[trigger] parts@[m]@ == trim(split(chars@, ';')[m]),
            decreases pieces.len() - k,
        {
            parts.push(trim_chars(&pieces[k]));
            k += 1;
        }
        let ghost pv = chars_views(parts@);
        proof {
            assert(pv =~= command_parts(command@));
        }
        if !(2 <= parts.len() && parts.len() <= 3) {
            return Err(ParseError::from_str("格式：公式 ; 规则 ; 引用行。例如 B ; mp ; 3,5"));
        }
        assert(pv[0] == parts@[0]@ && pv[1] == parts@[1]@);
        let source: String = string_of(&parts[0]);
        let formula: Formula = parse_formula(source.as_str())?;
        let refs: Vec<usize> = match references(&parts) {
            Some(refs) => refs,
            None => {
                return Err(ParseError::from_str("引用行必须是以逗号分隔的正整数。"));
            },
        };
        let rule: &Vec<char> = &parts[1];
        let scope: Vec<usize>;
        if rule_is(rule, "assume") {
            if refs.len() > 0 {
                return Err(ParseError::from_str("假设不引用其他行。"));
            }
            if self.open.len() >= 16 {
                return Err(ParseError::from_str("子证明最多嵌套 16 层。"));
            }
            let mut opened: Vec<usize> = copy_numbers(&self.open);
            opened.push(self.lines.len() + 1);
            scope = opened;
        } else {
            let cited: Vec<Formula> = self.cite(&refs)?;
            proof {
                lemma_cite(self@, refs@, refs@.len());
            }
            if discharge_rule(rule) && cited.len() == 2 {
                let placed: bool = self.open.len() > 0 && self.open[self.open.len() - 1]
                    == refs[0] && refs[1] == self.lines.len() && self.lines.len() > 0
                    && same_numbers(&self.lines[self.lines.len() - 1].scope, &self.open);
                proof {
                    if self.lines.len() > 0 {
                        assert(self@.lines.last() == self.lines@[self.lines.len() - 1]@);
                    }
                }
                if !placed {
                    return Err(ParseError::from_str(
                        "必须引用当前最内层的假设行和该子证明的最后一行；不能跨层解除假设。",
                    ));
                }
                if !discharges(rule, &cited[0], &cited[1], &formula) {
                    return Err(ParseError(mismatch(rule)));
                }
                let mut closed: Vec<usize> = copy_numbers(&self.open);
                closed.pop();
                proof {
                    assert(closed@ =~= self@.open.drop_last());
                }
                scope = closed;
            } else if plain_matches(rule, &cited, &formula) {
                scope = copy_numbers(&self.open);
            } else {
                return Err(ParseError(mismatch(rule)));
            }
        }
        let explanation_text: &'static str = explain(rule);
        let rule_text: String = string_of(rule);
        let open_scope: Vec<usize> = copy_numbers(&scope);
        self.lines.push(ProofLine { formula, rule: rule_text, references: refs, scope });
        self.open = open_scope;
        self.commands.push(String::from_str(command));
        proof {
            assert(self@.lines =~= before.lines.push(self.lines@.last()@));
            assert(self@.commands =~= before.commands.push(command@));
            assert(before.commands.push(command@).drop_last() =~= before.commands);
        }
        let mut message: String = String::from_str("正确。");
        message.append(explanation_text);
        if self.is_finished() {
            message.append(" 目标已在所有假设之外成立，证明完成。");
        }
        proof {
            if !spec_finished(self@) {
                assert(message@ =~= "正确。"@ + explanation(rule@) + finish_note(self@));
            }
        }
        Ok(message)
    }

    /// Submit each command in order, stopping at the first refusal.
    pub fn replay(self, commands: &[String]) -> (result: Result<Proof, ParseError>)
        requires
            self.wf(),
        ensures
            match replay_from(self@, texts_view(commands@)) {
                Ok(q) => result matches Ok(p) && p@ == q && p.wf(),
                Err(e) => result matches Err(err) && err.0@ == e,
            },
    {
        let ghost start = self@;
        let mut proof: Proof = self;
        let ghost cv = texts_view(commands@);
        let mut i: usize = 0;
        proof {
            assert(cv.take(0) =~= Seq::<Seq<char>>::empty());
        }
        while i < commands.len()
            invariant
                i <= commands.len(),
                cv == texts_view(commands@),
                start == self@,
                proof.wf(),
                replay_from(start, cv.take(i as int)) == Ok::<ProofV, Seq<char>>(proof@),
            decreases commands.len() - i,
        {
            proof {
                lemma_replay_split(start, cv, i as nat);
                assert(cv[i as int] == commands@[i as int]@);
            }
            match proof.submit(commands[i].as_str()) {
                Ok(_) => {},
                Err(e) => {
                    proof {
                        assert(replay_from(start, cv.take(i + 1)) == Err::<ProofV, Seq<char>>(e.0@));
                        lemma_replay_err_stays(start, cv, (i + 1) as nat);
                        assert(replay_from(start, cv) == Err::<ProofV, Seq<char>>(e.0@));
                        assert(start == self@);
                        assert(cv == texts_view(commands@));
                    }
                    return Err(e);
                },
            }
            i += 1;
        }
        proof {
            assert(cv.take(commands.len() as int) =~= cv);
        }
        Ok(proof)
    }

    /// Take back the last accepted line by replaying every command but the last. False
    /// when no line was added.
    pub fn undo(&mut self) -> (undone: bool)
        requires
            old(self).wf(),
        ensures
            final(self).wf(),
            undone == (old(self)@.commands.len() > 0),
            undone ==> final(self)@ == replay_from(
                initial(old(self)@.premises, old(self)@.goal),
                old(self)@.commands.drop_last(),
            )->Ok_0,
            !undone ==> final(self)@ == old(self)@,
    {
        if self.commands.len() == 0 {
            return false;
        }
        let mut kept: Vec<String> = Vec::new();
        let mut i: usize = 0;
        while i + 1 < self.commands.len()
            invariant
                i + 1 <= self.commands.len(),
                texts_view(kept@) == self@.commands.take(i as int),
            decreases self.commands.len() - i,
        {
            let ghost earlier = kept@;
            let text: String = self.commands[i].clone();
            kept.push(text);
            proof {
                assert(kept@ == earlier.push(text));
                assert(texts_view(kept@) =~= texts_view(earlier).push(text@));
                assert(self@.commands[i as int] == self.commands@[i as int]@);
                assert(texts_view(kept@) =~= self@.commands.take(i + 1));
            }
            i += 1;
        }
        proof {
            assert(self@.commands.take(i as int) =~= self@.commands.drop_last());
            lemma_replay_prefix_ok(initial(self@.premises, self@.goal), self@.commands);
        }
        let mut premises: Vec<Formula> = Vec::new();
        let mut k: usize = 0;
        while k < self.premises.len()
            invariant
                k <= self.premises.len(),
                formulas_view(premises@) == formulas_view(self.premises@).take(k as int),
            decreases self.premises.len() - k,
        {
            let ghost earlier = premises@;
            let f: Formula = self.premises[k].duplicate();
            premises.push(f);
            proof {
                assert(premises@ == earlier.push(f));
                assert(formulas_view(premises@) =~= formulas_view(earlier).push(f@));
                assert(formulas_view(premises@) =~= formulas_view(self.premises@).take(k + 1));
            }
            k += 1;
        }
        proof {
            assert(formulas_view(self.premises@).take(self.premises.len() as int) =~= formulas_view(
                self.premises@,
            ));
        }
        let fresh: Proof = Proof::new(premises, self.goal.duplicate());
        match fresh.replay(kept.as_slice()) {
            Ok(previous) => {
                *self = previous;
                true
            },
            Err(_) => {
                proof {
                    assert(false);
                }
                true
            },
        }
    }
}

/// The text of a refusal that names the rule.
fn mismatch(rule: &Vec<char>) -> (text: String)
    ensures
        text@ == msg_mismatch(rule@),
{
    let mut text: String = String::from_str("这一步不符合 ");
    crate::text::push_chars(&mut text, rule);
    text.append(" 的规则或引用数量。请检查公式的结构、引用行及规则说明；语义等价不等于应用了该规则。");
    text
}

/// Once citing stops at a reference, citing more references stops at the same one.
proof fn lemma_cite_prefix_err(p: ProofV, refs: Seq<usize>, k: nat, n: nat)
    requires
        k <= n,
    ensures
        spec_cite(p, refs, k) is Err ==> spec_cite(p, refs, n) == spec_cite(p, refs, k),
    decreases n - k,
{
    if k < n {
        lemma_cite_prefix_err(p, refs, k, (n - 1) as nat);
    }
}

/// Replaying a longer list of commands continues from the shorter one.
proof fn lemma_replay_split(start: ProofV, cv: Seq<Seq<char>>, i: nat)
    requires
        i < cv.len(),
        replay_from(start, cv.take(i as int)) is Ok,
    ensures
        replay_from(start, cv.take((i + 1) as int)) == (match spec_submit(
            replay_from(start, cv.take(i as int))->Ok_0,
            cv[i as int],
        ) {
            Ok((r, _)) => Ok(r),
            Err(e) => Err(e),
        }),
{
    assert(cv.take((i + 1) as int).drop_last() =~= cv.take(i as int));
}

/// A replay that stopped stays stopped with the same refusal, whatever follows.
proof fn lemma_replay_err_stays(start: ProofV, cv: Seq<Seq<char>>, i: nat)
    requires
        i <= cv.len(),
        replay_from(start, cv.take(i as int)) is Err,
    ensures
        replay_from(start, cv) == replay_from(start, cv.take(i as int)),
    decreases cv.len() - i,
{
    if i < cv.len() {
        assert(cv.take((i + 1) as int).drop_last() =~= cv.take(i as int));
        lemma_replay_err_stays(start, cv, i + 1);
    } else {
        assert(cv.take(i as int) =~= cv);
    }
}

/// Every prefix of a replay that succeeded succeeded too.
proof fn lemma_replay_prefix_ok(start: ProofV, cv: Seq<Seq<char>>)
    requires
        replay_from(start, cv) is Ok,
        cv.len() > 0,
    ensures
        replay_from(start, cv.drop_last()) is Ok,
{
}

} // verus!

verus! {

/// Taking back the line just accepted gives back the proof exactly as it stood: `undo`
/// replays every command but the last, and that replay is the proof before the last one.
pub proof fn law_undo_reverts_submit(
    premises: Seq<FormulaV>,
    goal: FormulaV,
    commands: Seq<Seq<char>>,
    command: Seq<char>,
)
    requires
        replay_from(initial(premises, goal), commands) is Ok,
        spec_submit(replay_from(initial(premises, goal), commands)->Ok_0, command) is Ok,
    ensures
        ({
            let before = replay_from(initial(premises, goal), commands)->Ok_0;
            let after = spec_submit(before, command)->Ok_0.0;
            &&& replay_from(initial(premises, goal), commands.push(command)) == Ok::<
                ProofV,
                Seq<char>,
            >(after)
            &&& after.commands.drop_last() == commands
            &&& replay_from(initial(premises, goal), after.commands.drop_last()) == Ok::<
                ProofV,
                Seq<char>,
            >(before)
        }),
{
    let start = initial(premises, goal);
    let before = replay_from(start, commands)->Ok_0;
    lemma_replay_commands(start, commands);
    lemma_submit_shape(before, command);
    assert(commands.push(command).drop_last() =~= commands);
    assert(start.commands + commands =~= commands);
}

/// A refused line never changes anything, and an accepted one only appends: the lines
/// already written, the premises and the goal stay as they were.
pub proof fn law_lines_are_never_rewritten(p: ProofV, command: Seq<char>)
    requires
        spec_submit(p, command) is Ok,
    ensures
        spec_submit(p, command)->Ok_0.0.lines.subrange(0, p.lines.len() as int) == p.lines,
        spec_submit(p, command)->Ok_0.0.premises == p.premises,
        spec_submit(p, command)->Ok_0.0.goal == p.goal,
{
    lemma_submit_shape(p, command);
}

/// Once finished, a proof accepts no further line.
pub proof fn law_finished_proof_accepts_nothing(p: ProofV, command: Seq<char>)
    requires
        spec_finished(p),
    ensures
        spec_submit(p, command) == Err::<(ProofV, Seq<char>), Seq<char>>(msg_done()),
{
}

/// The rules whose two references may be cited in either order.
pub open spec fn order_free(rule: Seq<char>) -> bool {
    rule == "mp"@ || rule == "not-elim"@ || rule == "iff-intro"@
}

/// `mp`, `not-elim` and `iff-intro` take their two references in either order: citing
/// them the other way round accepts exactly the same lines.
pub proof fn law_two_references_in_either_order(
    p: ProofV,
    f: FormulaV,
    rule: Seq<char>,
    first: usize,
    second: usize,
    command: Seq<char>,
)
    requires
        order_free(rule),
    ensures
        spec_apply_rule(p, f, rule, seq![first, second], command) is Ok
            == spec_apply_rule(p, f, rule, seq![second, first], command) is Ok,
{
    let there = seq![first, second];
    let back = seq![second, first];
    reveal_strlit("mp");
    reveal_strlit("not-elim");
    reveal_strlit("iff-intro");
    reveal_strlit("assume");
    reveal_strlit("imp-intro");
    reveal_strlit("not-intro");
    reveal_strlit("raa");
    reveal_strlit("copy");
    reveal_strlit("and-intro");
    reveal_strlit("and-left");
    reveal_strlit("and-right");
    reveal_strlit("or-left");
    reveal_strlit("or-right");
    reveal_strlit("bottom-elim");
    reveal_strlit("iff-left");
    reveal_strlit("iff-right");
    assert("mp"@.len() == 2);
    assert("not-elim"@.len() == 8);
    assert("iff-intro"@.len() == 9);
    assert("assume"@.len() == 6);
    assert("imp-intro"@.len() == 9);
    assert("not-intro"@.len() == 9);
    assert("raa"@.len() == 3);
    assert("copy"@.len() == 4);
    assert("and-intro"@.len() == 9);
    assert("and-left"@.len() == 8);
    assert("and-right"@.len() == 9);
    assert("or-left"@.len() == 7);
    assert("or-right"@.len() == 8);
    assert("bottom-elim"@.len() == 11);
    assert("iff-left"@.len() == 8);
    assert("iff-right"@.len() == 9);
    // Rule names of one length differ at some letter.
    assert("not-elim"@[0] != "and-left"@[0] && "not-elim"@[0] != "or-right"@[0]);
    assert("not-elim"@[0] != "iff-left"@[0]);
    assert("iff-intro"@[0] != "and-intro"@[0] && "iff-intro"@[0] != "and-right"@[0]);
    assert("iff-intro"@[4] != "iff-right"@[4] && "iff-intro"@[1] != "imp-intro"@[1]);
    assert("iff-intro"@[0] != "not-intro"@[0]);
    assert(!is_discharge(rule));
    assert(rule != "assume"@);
    assert(there[0] == first && there[1] == second);
    assert(back[0] == second && back[1] == first);
    reveal_with_fuel(spec_cite, 3);
    let a = spec_accessible(p, first);
    let b = spec_accessible(p, second);
    if a is Ok && b is Ok {
        let ca = spec_cite(p, there, 2);
        let cb = spec_cite(p, back, 2);
        assert(ca == Ok::<Seq<FormulaV>, Seq<char>>(seq![a->Ok_0, b->Ok_0])) by {
            assert(spec_cite(p, there, 1) == Ok::<Seq<FormulaV>, Seq<char>>(seq![a->Ok_0])) by {
                assert(spec_cite(p, there, 0) == Ok::<Seq<FormulaV>, Seq<char>>(Seq::empty()));
                assert(Seq::<FormulaV>::empty().push(a->Ok_0) =~= seq![a->Ok_0]);
            }
            assert(seq![a->Ok_0].push(b->Ok_0) =~= seq![a->Ok_0, b->Ok_0]);
        }
        assert(cb == Ok::<Seq<FormulaV>, Seq<char>>(seq![b->Ok_0, a->Ok_0])) by {
            assert(spec_cite(p, back, 1) == Ok::<Seq<FormulaV>, Seq<char>>(seq![b->Ok_0])) by {
                assert(spec_cite(p, back, 0) == Ok::<Seq<FormulaV>, Seq<char>>(Seq::empty()));
                assert(Seq::<FormulaV>::empty().push(b->Ok_0) =~= seq![b->Ok_0]);
            }
            assert(seq![b->Ok_0].push(a->Ok_0) =~= seq![b->Ok_0, a->Ok_0]);
        }
        let x = seq![a->Ok_0, b->Ok_0];
        let y = seq![b->Ok_0, a->Ok_0];
        assert(x[0] == y[1] && x[1] == y[0] && x.len() == 2 && y.len() == 2);
        assert(plain_rule_matches(rule, x, f) == plain_rule_matches(rule, y, f));
    } else {
        assert(spec_cite(p, there, 0) == Ok::<Seq<FormulaV>, Seq<char>>(Seq::empty()));
        assert(spec_cite(p, back, 0) == Ok::<Seq<FormulaV>, Seq<char>>(Seq::empty()));
        assert(spec_cite(p, there, 2) is Err);
        assert(spec_cite(p, back, 2) is Err);
    }
}

} // verus!
