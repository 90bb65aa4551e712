//! Propositional formulas: connectives, truth under a valuation, the two renderings a
//! student and the progress file see, and the set of proposition letters.

use vstd::prelude::*;

use crate::text::{chars_of, concat, push_chars, string_of};

verus! {

/// The binary connectives.
#[derive(Clone, Copy, Debug, PartialEq, Eq, Hash, Structural)]
pub enum LogicOp {
    And,
    Or,
    Implies,
    Iff,
}

pub open spec fn spec_symbol(op: LogicOp) -> Seq<char> {
    match op {
        LogicOp::And => "∧"@,
        LogicOp::Or => "∨"@,
        LogicOp::Implies => "→"@,
        LogicOp::Iff => "↔"@,
    }
}

/// The truth table of each connective; implication is material.
pub open spec fn spec_apply(op: LogicOp, left: bool, right: bool) -> bool {
    match op {
        LogicOp::And => left && right,
        LogicOp::Or => left || right,
        LogicOp::Implies => !left || right,
        LogicOp::Iff => left == right,
    }
}

/// The result a left operand alone decides, if it decides one.
pub open spec fn spec_short_circuit(op: LogicOp, left: bool) -> Option<bool> {
    match (op, left) {
        (LogicOp::And, false) => Some(false),
        (LogicOp::Or, true) => Some(true),
        (LogicOp::Implies, false) => Some(true),
        _ => None,
    }
}

pub open spec fn spec_rule(op: LogicOp) -> Seq<char> {
    match op {
        LogicOp::And => "合取：两边都真才为真。"@,
        LogicOp::Or => "析取（相容或）：至少一边为真即为真。"@,
        LogicOp::Implies => "实质蕴涵：仅当前件真、后件假时为假。"@,
        LogicOp::Iff => "等价：两边真值相同时为真。"@,
    }
}

/// Ranks the connectives for a student choosing between ready operations.
pub open spec fn spec_precedence(op: LogicOp) -> u8 {
    match op {
        LogicOp::And => 70,
        LogicOp::Or => 50,
        LogicOp::Implies => 30,
        LogicOp::Iff => 10,
    }
}

impl LogicOp {
    pub fn symbol(self) -> (symbol: &'static str)
        ensures
            symbol@ == spec_symbol(self),
    {
        match self {
            LogicOp::And => "∧",
            LogicOp::Or => "∨",
            LogicOp::Implies => "→",
            LogicOp::Iff => "↔",
        }
    }

    pub fn apply(self, left: bool, right: bool) -> (value: bool)
        ensures
            value == spec_apply(self, left, right),
    {
        match self {
            LogicOp::And => left && right,
            LogicOp::Or => left || right,
            LogicOp::Implies => !left || right,
            LogicOp::Iff => left == right,
        }
    }

    pub fn short_circuit(self, left: bool) -> (value: Option<bool>)
        ensures
            value == spec_short_circuit(self, left),
    {
        match (self, left) {
            (LogicOp::And, false) => Some(false),
            (LogicOp::Or, true) => Some(true),
            (LogicOp::Implies, false) => Some(true),
            _ => None,
        }
    }

    pub fn rule(self) -> (rule: &'static str)
        ensures
            rule@ == spec_rule(self),
    {
        match self {
            LogicOp::And => "合取：两边都真才为真。",
            LogicOp::Or => "析取（相容或）：至少一边为真即为真。",
            LogicOp::Implies => "实质蕴涵：仅当前件真、后件假时为假。",
            LogicOp::Iff => "等价：两边真值相同时为真。",
        }
    }

    pub fn precedence(self) -> (rank: u8)
        ensures
            rank == spec_precedence(self),
    {
        match self {
            LogicOp::And => 70,
            LogicOp::Or => 50,
            LogicOp::Implies => 30,
            LogicOp::Iff => 10,
        }
    }
}

/// Short circuit never changes a result: whenever the left operand decides a value,
/// that is the value of the whole connective, whatever the right operand is.
pub proof fn law_short_circuit_agrees(op: LogicOp, left: bool, right: bool)
    requires
        spec_short_circuit(op, left) is Some,
    ensures
        spec_apply(op, left, right) == spec_short_circuit(op, left)->0,
{
}

/// Equivalence never short-circuits; the other three connectives always can on one value.
pub proof fn law_which_connectives_short_circuit(op: LogicOp)
    ensures
        op == LogicOp::Iff <==> (forall|left: bool| spec_short_circuit(op, left) is None),
{
    if op != LogicOp::Iff {
        assert(spec_short_circuit(op, false) is Some || spec_short_circuit(op, true) is Some);
    }
}

/// A propositional formula.
#[derive(Debug)]
pub enum Formula {
    Atom(String),
    Constant(bool),
    Not(Box<Formula>),
    Binary(LogicOp, Box<Formula>, Box<Formula>),
}

impl Clone for Formula {
    fn clone(&self) -> (f: Self)
        ensures
            f@ == self@,
    {
        self.duplicate()
    }
}

/// What a formula is, with proposition letters as character sequences.
pub enum FormulaV {
    Atom(Seq<char>),
    Constant(bool),
    Not(Box<FormulaV>),
    Binary(LogicOp, Box<FormulaV>, Box<FormulaV>),
}

pub open spec fn formula_view(f: Formula) -> FormulaV
    decreases f,
{
    match f {
        Formula::Atom(name) => FormulaV::Atom(name@),
        Formula::Constant(value) => FormulaV::Constant(value),
        Formula::Not(child) => FormulaV::Not(Box::new(formula_view(*child))),
        Formula::Binary(op, left, right) => FormulaV::Binary(
            op,
            Box::new(formula_view(*left)),
            Box::new(formula_view(*right)),
        ),
    }
}

impl View for Formula {
    type V = FormulaV;

    open spec fn view(&self) -> FormulaV {
        formula_view(*self)
    }
}

/// The truth of a formula when exactly the letters in `truths` are true.
pub open spec fn holds(f: FormulaV, truths: Set<Seq<char>>) -> bool
    decreases f,
{
    match f {
        FormulaV::Atom(name) => truths.contains(name),
        FormulaV::Constant(value) => value,
        FormulaV::Not(child) => !holds(*child, truths),
        FormulaV::Binary(op, left, right) => spec_apply(op, holds(*left, truths), holds(*right, truths)),
    }
}

/// The student-facing rendering: letters, `⊤` / `⊥`, `¬` and a bracketed binary form.
pub open spec fn spec_render(f: FormulaV) -> Seq<char>
    decreases f,
{
    match f {
        FormulaV::Atom(name) => name,
        FormulaV::Constant(value) => if value {
            "⊤"@
        } else {
            "⊥"@
        },
        FormulaV::Not(child) => "¬"@ + spec_render(*child),
        FormulaV::Binary(op, left, right) => "("@ + spec_render(*left) + " "@ + spec_symbol(op)
            + " "@ + spec_render(*right) + ")"@,
    }
}

pub open spec fn spec_op_name(op: LogicOp) -> Seq<char> {
    match op {
        LogicOp::And => "And"@,
        LogicOp::Or => "Or"@,
        LogicOp::Implies => "Implies"@,
        LogicOp::Iff => "Iff"@,
    }
}

/// The structural rendering progress keys are filed under, written out the way the
/// derived `Debug` writes a formula whose letters need no escaping.
pub open spec fn spec_debug(f: FormulaV) -> Seq<char>
    decreases f,
{
    match f {
        FormulaV::Atom(name) => "Atom(\""@ + name + "\")"@,
        FormulaV::Constant(value) => if value {
            "Constant(true)"@
        } else {
            "Constant(false)"@
        },
        FormulaV::Not(child) => "Not("@ + spec_debug(*child) + ")"@,
        FormulaV::Binary(op, left, right) => "Binary("@ + spec_op_name(op) + ", "@ + spec_debug(
            *left,
        ) + ", "@ + spec_debug(*right) + ")"@,
    }
}

/// `[a, b, c]`: a list of formulas as the derived `Debug` of a vector writes it.
pub open spec fn spec_debug_list(fs: Seq<FormulaV>) -> Seq<char> {
    "["@ + spec_debug_items(fs) + "]"@
}

pub open spec fn spec_debug_items(fs: Seq<FormulaV>) -> Seq<char>
    decreases fs.len(),
{
    if fs.len() == 0 {
        Seq::empty()
    } else if fs.len() == 1 {
        spec_debug(fs[0])
    } else {
        spec_debug_items(fs.drop_last()) + ", "@ + spec_debug(fs.last())
    }
}

/// The proposition letters a formula mentions.
pub open spec fn spec_atoms(f: FormulaV) -> Set<Seq<char>>
    decreases f,
{
    match f {
        FormulaV::Atom(name) => set![name],
        FormulaV::Constant(_) => Set::empty(),
        FormulaV::Not(child) => spec_atoms(*child),
        FormulaV::Binary(_, left, right) => spec_atoms(*left).union(spec_atoms(*right)),
    }
}

pub proof fn lemma_atoms_finite(f: FormulaV)
    ensures
        spec_atoms(f).finite(),
    decreases f,
{
    match f {
        FormulaV::Not(child) => lemma_atoms_finite(*child),
        FormulaV::Binary(_, left, right) => {
            lemma_atoms_finite(*left);
            lemma_atoms_finite(*right);
        },
        _ => {},
    }
}

/// Lexicographic order on code points, which is the order of `String`.
pub open spec fn text_less(a: Seq<char>, b: Seq<char>) -> bool
    decreases a.len(),
{
    if a.len() == 0 {
        b.len() > 0
    } else if b.len() == 0 {
        false
    } else if a[0] < b[0] {
        true
    } else if a[0] == b[0] {
        text_less(a.drop_first(), b.drop_first())
    } else {
        false
    }
}

pub proof fn lemma_text_less_transitive(a: Seq<char>, b: Seq<char>, c: Seq<char>)
    requires
        text_less(a, b),
        text_less(b, c),
    ensures
        text_less(a, c),
    decreases a.len(),
{
    if a.len() > 0 && b.len() > 0 && c.len() > 0 && a[0] == b[0] && b[0] == c[0] {
        lemma_text_less_transitive(a.drop_first(), b.drop_first(), c.drop_first());
    }
}

pub proof fn lemma_text_less_total(a: Seq<char>, b: Seq<char>)
    ensures
        a == b || text_less(a, b) || text_less(b, a),
        !(text_less(a, b) && text_less(b, a)),
        !text_less(a, a),
    decreases a.len(),
{
    if a.len() > 0 && b.len() > 0 && a[0] == b[0] {
        lemma_text_less_total(a.drop_first(), b.drop_first());
        if a.drop_first() == b.drop_first() {
            assert(a =~= seq![a[0]] + a.drop_first());
            assert(b =~= seq![b[0]] + b.drop_first());
        }
    } else if a.len() == 0 && b.len() == 0 {
        assert(a =~= b);
    }
    if a.len() > 0 {
        lemma_text_less_total(a.drop_first(), a.drop_first());
    }
}

/// Compare two texts by code points.
pub(crate) fn less_text(a: &Vec<char>, b: &Vec<char>) -> (r: bool)
    ensures
        r == text_less(a@, b@),
{
    let mut i: usize = 0;
    assert(a@.skip(0) =~= a@);
    assert(b@.skip(0) =~= b@);
    while i < a.len() && i < b.len() && a[i] == b[i]
        invariant
            i <= a.len(),
            i <= b.len(),
            text_less(a@, b@) == text_less(a@.skip(i as int), b@.skip(i as int)),
        decreases a.len() - i,
    {
        assert(a@.skip(i as int).drop_first() =~= a@.skip(i + 1));
        assert(b@.skip(i as int).drop_first() =~= b@.skip(i + 1));
        i += 1;
    }
    if i == a.len() {
        i < b.len()
    } else if i == b.len() {
        false
    } else {
        a[i] < b[i]
    }
}

/// Sorted and without repeats, as a `BTreeSet` of strings walks.
pub open spec fn strictly_sorted(names: Seq<Seq<char>>) -> bool {
    forall|i: int, j: int| 0 <= i < j < names.len() ==> text_less(names[i], names[j])
}

pub open spec fn string_views(names: Seq<String>) -> Seq<Seq<char>> {
    names.map_values(|s: String| s@)
}

impl Formula {
    pub fn negate(self) -> (f: Formula)
        ensures
            f@ == FormulaV::Not(Box::new(self@)),
    {
        Formula::Not(Box::new(self))
    }

    pub fn binary(op: LogicOp, left: Formula, right: Formula) -> (f: Formula)
        ensures
            f@ == FormulaV::Binary(op, Box::new(left@), Box::new(right@)),
    {
        Formula::Binary(op, Box::new(left), Box::new(right))
    }

    /// An independent copy.
    pub fn duplicate(&self) -> (f: Formula)
        ensures
            f@ == self@,
        decreases self,
    {
        match self {
            Formula::Atom(name) => Formula::Atom(name.clone()),
            Formula::Constant(value) => Formula::Constant(*value),
            Formula::Not(child) => Formula::Not(Box::new(child.duplicate())),
            Formula::Binary(op, left, right) => Formula::Binary(
                *op,
                Box::new(left.duplicate()),
                Box::new(right.duplicate()),
            ),
        }
    }

    /// Structural equality: the same letters, constants and connectives in the same shape.
    pub fn equals(&self, other: &Formula) -> (same: bool)
        ensures
            same == (self@ == other@),
        decreases self,
    {
        match (self, other) {
            (Formula::Atom(a), Formula::Atom(b)) => crate::text::same_text(a.as_str(), b.as_str()),
            (Formula::Constant(a), Formula::Constant(b)) => *a == *b,
            (Formula::Not(a), Formula::Not(b)) => a.equals(b),
            (Formula::Binary(p, a1, a2), Formula::Binary(q, b1, b2)) => {
                *p == *q && a1.equals(b1) && a2.equals(b2)
            },
            _ => false,
        }
    }

    /// The student-facing rendering.
    pub fn render(&self) -> (text: String)
        ensures
            text@ == spec_render(self@),
    {
        let mut text: String = String::new();
        self.write(&mut text);
        assert(Seq::<char>::empty() + spec_render(self@) =~= spec_render(self@));
        text
    }

    fn write(&self, text: &mut String)
        ensures
            final(text)@ == old(text)@ + spec_render(self@),
        decreases self,
    {
        match self {
            Formula::Atom(name) => {
                text.append(name.as_str());
            },
            Formula::Constant(value) => {
                if *value {
                    text.append("⊤");
                } else {
                    text.append("⊥");
                }
            },
            Formula::Not(child) => {
                text.append("¬");
                child.write(text);
                assert(old(text)@ + "¬"@ + spec_render(child@) =~= old(text)@ + spec_render(
                    self@,
                ));
            },
            Formula::Binary(op, left, right) => {
                text.append("(");
                left.write(text);
                text.append(" ");
                text.append(op.symbol());
                text.append(" ");
                right.write(text);
                text.append(")");
                assert(old(text)@ + "("@ + spec_render(left@) + " "@ + spec_symbol(*op) + " "@
                    + spec_render(right@) + ")"@ =~= old(text)@ + spec_render(self@));
            },
        }
    }

    /// The structural rendering saved progress is keyed by.
    pub fn debug_text(&self) -> (text: String)
        ensures
            text@ == spec_debug(self@),
    {
        let mut text: String = String::new();
        self.write_debug(&mut text);
        assert(Seq::<char>::empty() + spec_debug(self@) =~= spec_debug(self@));
        text
    }

    pub fn write_debug(&self, text: &mut String)
        ensures
            final(text)@ == old(text)@ + spec_debug(self@),
        decreases self,
    {
        match self {
            Formula::Atom(name) => {
                text.append("Atom(\"");
                text.append(name.as_str());
                text.append("\")");
                assert(old(text)@ + "Atom(\""@ + name@ + "\")"@ =~= old(text)@ + spec_debug(
                    self@,
                ));
            },
            Formula::Constant(value) => {
                if *value {
                    text.append("Constant(true)");
                } else {
                    text.append("Constant(false)");
                }
            },
            Formula::Not(child) => {
                text.append("Not(");
                child.write_debug(text);
                text.append(")");
                assert(old(text)@ + "Not("@ + spec_debug(child@) + ")"@ =~= old(text)@
                    + spec_debug(self@));
            },
            Formula::Binary(op, left, right) => {
                text.append("Binary(");
                let name: &str = match op {
                    LogicOp::And => "And",
                    LogicOp::Or => "Or",
                    LogicOp::Implies => "Implies",
                    LogicOp::Iff => "Iff",
                };
                text.append(name);
                text.append(", ");
                left.write_debug(text);
                text.append(", ");
                right.write_debug(text);
                text.append(")");
                assert(old(text)@ + "Binary("@ + spec_op_name(*op) + ", "@ + spec_debug(left@)
                    + ", "@ + spec_debug(right@) + ")"@ =~= old(text)@ + spec_debug(self@));
            },
        }
    }

    /// The proposition letters, in string order and without repeats.
    pub fn atoms(&self) -> (names: Vec<String>)
        ensures
            strictly_sorted(string_views(names@)),
            string_views(names@).to_set() == spec_atoms(self@),
    {
        let mut names: Vec<String> = Vec::new();
        proof {
            assert(string_views(names@) =~= Seq::<Seq<char>>::empty());
        }
        self.collect_atoms(&mut names);
        proof {
            assert(string_views(Seq::<String>::empty()).to_set() =~= Set::<Seq<char>>::empty());
            assert(Set::<Seq<char>>::empty().union(spec_atoms(self@)) =~= spec_atoms(self@));
        }
        names
    }

    fn collect_atoms(&self, names: &mut Vec<String>)
        requires
            strictly_sorted(string_views(old(names)@)),
        ensures
            strictly_sorted(string_views(final(names)@)),
            string_views(final(names)@).to_set() == string_views(old(names)@).to_set().union(
                spec_atoms(self@),
            ),
        decreases self,
    {
        match self {
            Formula::Atom(name) => {
                insert_sorted(names, name);
            },
            Formula::Constant(_) => {
                assert(string_views(old(names)@).to_set().union(Set::empty()) =~= string_views(
                    old(names)@,
                ).to_set());
            },
            Formula::Not(child) => {
                child.collect_atoms(names);
            },
            Formula::Binary(_, left, right) => {
                let ghost before = string_views(names@).to_set();
                left.collect_atoms(names);
                right.collect_atoms(names);
                assert(before.union(spec_atoms(left@)).union(spec_atoms(right@)) =~= before.union(
                    spec_atoms(self@),
                ));
            },
        }
    }
}

/// Add `name` to a sorted list of distinct names, keeping it sorted and distinct.
pub(crate) fn insert_sorted(names: &mut Vec<String>, name: &String)
    requires
        strictly_sorted(string_views(old(names)@)),
    ensures
        strictly_sorted(string_views(final(names)@)),
        string_views(final(names)@).to_set() == string_views(old(names)@).to_set().insert(name@),
{
    let target: Vec<char> = chars_of(name.as_str());
    let ghost old_views = string_views(names@);
    let mut i: usize = 0;
    let mut stop: bool = false;
    while i < names.len() && !stop
        invariant
            i <= names.len(),
            stop ==> i < names.len() && text_less(name@, old_views[i as int]),
            names@ == old(names)@,
            old_views == string_views(names@),
            target@ == name@,
            strictly_sorted(old_views),
            forall|k: int| 0 <= k < i ==> text_less(#[trigger] old_views[k], name@),
        decreases names.len() - i + (if stop { 0int } else { 1int }),
    {
        let here: Vec<char> = chars_of(names[i].as_str());
        assert(old_views[i as int] == names@[i as int]@);
        if !less_text(&here, &target) {
            proof {
                lemma_text_less_total(here@, target@);
            }
            if !less_text(&target, &here) {
                // The name is already listed.
                proof {
                    assert(old_views[i as int] == name@);
                    assert(old_views.to_set().insert(name@) =~= old_views.to_set());
                }
                return;
            }
            stop = true;
        } else {
            i += 1;
        }
    }
    let ghost pos = i;
    names.insert(i, name.clone());
    proof {
        let new_views = string_views(names@);
        assert(new_views =~= old_views.insert(pos as int, name@));
        assert forall|a: int, b: int| 0 <= a < b < new_views.len() implies text_less(
            new_views[a],
            new_views[b],
        ) by {
            if b < pos {
            } else if a < pos && b == pos {
            } else if a < pos {
                assert(new_views[b] == old_views[b - 1]);
                if a < b - 1 {
                } else {
                }
            } else if a == pos {
                assert(new_views[b] == old_views[b - 1]);
                if pos < old_views.len() {
                    assert(text_less(name@, old_views[pos as int]));
                    if b - 1 > pos {
                        lemma_text_less_transitive(name@, old_views[pos as int], old_views[b - 1]);
                    }
                }
            } else {
                assert(new_views[a] == old_views[a - 1]);
                assert(new_views[b] == old_views[b - 1]);
            }
        }
        assert(new_views.to_set() =~= old_views.to_set().insert(name@)) by {
            assert forall|x: Seq<char>| new_views.to_set().contains(x) implies old_views.to_set().insert(
                name@,
            ).contains(x) by {
                let k = choose|k: int| 0 <= k < new_views.len() && new_views[k] == x;
                if k < pos {
                    assert(old_views[k] == x);
                } else if k > pos {
                    assert(old_views[k - 1] == x);
                }
            }
            assert forall|x: Seq<char>| old_views.to_set().insert(name@).contains(
                x,
            ) implies new_views.to_set().contains(x) by {
                if x == name@ {
                    assert(new_views[pos as int] == x);
                } else {
                    let k = choose|k: int| 0 <= k < old_views.len() && old_views[k] == x;
                    if k < pos {
                        assert(new_views[k] == x);
                    } else {
                        assert(new_views[k + 1] == x);
                    }
                }
            }
        }
    }
}

/// Write a list of formulas the way the derived `Debug` of a vector does.
pub fn debug_list(formulas: &Vec<Formula>) -> (text: String)
    ensures
        text@ == spec_debug_list(formulas@.map_values(|f: Formula| f@)),
{
    let ghost views = formulas@.map_values(|f: Formula| f@);
    let mut text: String = String::from_str("[");
    let mut i: usize = 0;
    while i < formulas.len()
        invariant
            i <= formulas.len(),
            views == formulas@.map_values(|f: Formula| f@),
            text@ == "["@ + spec_debug_items(views.take(i as int)),
        decreases formulas.len() - i,
    {
        let ghost before = text@;
        if i > 0 {
            text.append(", ");
        }
        formulas[i].write_debug(&mut text);
        proof {
            let next = views.take(i + 1);
            assert(next.drop_last() =~= views.take(i as int));
            assert(next.last() == formulas@[i as int]@);
            if i == 0 {
                assert(spec_debug_items(views.take(0)) =~= Seq::<char>::empty());
                assert(text@ =~= "["@ + spec_debug_items(next));
            } else {
                assert(text@ =~= "["@ + spec_debug_items(next));
            }
        }
        i += 1;
    }
    text.append("]");
    assert(views.take(formulas.len() as int) =~= views);
    text
}

} // verus!
