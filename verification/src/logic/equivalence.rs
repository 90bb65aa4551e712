//! Semantic equivalence of two formulas, decided with a reduced ordered binary decision
//! diagram from `boolean_expression`. It is an independent check beside the proof rules,
//! never a substitute for one.

use std::fmt::Debug;
use std::hash::Hash;

use boolean_expression::{Expr as BooleanExpr, BDD};
use vstd::prelude::*;

use crate::logic::formula::{
    holds, insert_sorted, spec_atoms, strictly_sorted, string_views, text_less, Formula, FormulaV,
    LogicOp, lemma_atoms_finite, lemma_text_less_total,
};
use crate::teaching::ParseError;

verus! {

#[verifier::external_type_specification]
#[verifier::external_body]
#[verifier::reject_recursive_types(T)]
pub struct ExBdd<T>(BDD<T>) where T: Clone + Debug + Eq + Hash;

#[verifier::external_type_specification]
#[verifier::external_body]
#[verifier::reject_recursive_types(T)]
pub struct ExBooleanExpr<T>(BooleanExpr<T>) where T: Clone + Debug + Eq + Hash;

/// Whether `f` names a function the diagram has built.
pub uninterp spec fn bdd_valid(bdd: BDD<String>, f: usize) -> bool;

/// The value of the function `f` of the diagram when exactly the terminals in `truths`
/// are true.
pub uninterp spec fn bdd_holds(bdd: BDD<String>, f: usize, truths: Set<Seq<char>>) -> bool;

/// What every operation on a diagram keeps: the functions built before still exist and
/// mean what they meant.
pub open spec fn bdd_grows(before: BDD<String>, after: BDD<String>) -> bool {
    forall|g: usize|
        #[trigger] bdd_valid(before, g) ==> bdd_valid(after, g) && forall|t: Set<Seq<char>>|
            bdd_holds(after, g, t) == bdd_holds(before, g, t)
}

/// Canonicity of a reduced ordered diagram: two functions that agree on every valuation
/// are the same function index.
pub open spec fn bdd_canonical(bdd: BDD<String>) -> bool {
    forall|f: usize, g: usize|
        #![trigger bdd_valid(bdd, f), bdd_valid(bdd, g)]
        bdd_valid(bdd, f) && bdd_valid(bdd, g) && (forall|t: Set<Seq<char>>|
            bdd_holds(bdd, f, t) == bdd_holds(bdd, g, t)) ==> f == g
}

/// `BDD::new`: an empty diagram, which is canonical since it holds nothing.
#[verifier::external_body]
fn bdd_new() -> (bdd: BDD<String>)
    ensures
        bdd_canonical(bdd),
{
    BDD::new()
}

/// The value of a boolean expression when exactly the terminals in `truths` are true, as
/// `Expr::evaluate` computes it.
pub uninterp spec fn expr_holds(e: BooleanExpr<String>, truths: Set<Seq<char>>) -> bool;

/// `Expr::Terminal`: true exactly when `name` is.
#[verifier::external_body]
fn expr_terminal(name: String) -> (e: BooleanExpr<String>)
    ensures
        forall|t: Set<Seq<char>>| expr_holds(e, t) == t.contains(name@),
{
    BooleanExpr::Terminal(name)
}

/// `Expr::Const`: the constant.
#[verifier::external_body]
fn expr_const(value: bool) -> (e: BooleanExpr<String>)
    ensures
        forall|t: Set<Seq<char>>| expr_holds(e, t) == value,
{
    BooleanExpr::Const(value)
}

/// `Expr::not`: the complement.
#[verifier::external_body]
fn expr_not(a: BooleanExpr<String>) -> (e: BooleanExpr<String>)
    ensures
        forall|t: Set<Seq<char>>| expr_holds(e, t) == !expr_holds(a, t),
{
    BooleanExpr::not(a)
}

/// `Expr::and`: the conjunction.
#[verifier::external_body]
fn expr_and(a: BooleanExpr<String>, b: BooleanExpr<String>) -> (e: BooleanExpr<String>)
    ensures
        forall|t: Set<Seq<char>>| expr_holds(e, t) == (expr_holds(a, t) && expr_holds(b, t)),
{
    BooleanExpr::and(a, b)
}

/// `Expr::or`: the disjunction.
#[verifier::external_body]
fn expr_or(a: BooleanExpr<String>, b: BooleanExpr<String>) -> (e: BooleanExpr<String>)
    ensures
        forall|t: Set<Seq<char>>| expr_holds(e, t) == (expr_holds(a, t) || expr_holds(b, t)),
{
    BooleanExpr::or(a, b)
}

/// `Clone` of an expression, which the crate derives: the same expression.
#[verifier::external_body]
fn expr_clone(a: &BooleanExpr<String>) -> (e: BooleanExpr<String>)
    ensures
        forall|t: Set<Seq<char>>| expr_holds(e, t) == expr_holds(*a, t),
{
    a.clone()
}

/// `BDD::from_expr`: the diagram's function for the expression, built node by node with
/// the diagram's terminal, constant, complement, conjunction and disjunction.
#[verifier::external_body]
fn bdd_from_expr(bdd: &mut BDD<String>, e: &BooleanExpr<String>) -> (f: usize)
    ensures
        bdd_valid(*final(bdd), f),
        forall|t: Set<Seq<char>>| #[trigger] bdd_holds(*final(bdd), f, t) == expr_holds(*e, t),
        bdd_grows(*old(bdd), *final(bdd)),
        bdd_canonical(*old(bdd)) ==> bdd_canonical(*final(bdd)),
{
    bdd.from_expr(e)
}

impl Formula {
    /// The formula as a boolean expression: implication as `¬a ∨ b`, equivalence as
    /// `(a ∧ b) ∨ (¬a ∧ ¬b)`.
    fn boolean(&self) -> (e: BooleanExpr<String>)
        ensures
            forall|t: Set<Seq<char>>| #[trigger] expr_holds(e, t) == holds(self@, t),
        decreases self,
    {
        match self {
            Formula::Atom(name) => {
                proof {
                    assert(self@ == FormulaV::Atom(name@));
                }
                expr_terminal(name.clone())
            },
            Formula::Constant(value) => expr_const(*value),
            Formula::Not(child) => expr_not(child.boolean()),
            Formula::Binary(op, left, right) => {
                let a: BooleanExpr<String> = left.boolean();
                let b: BooleanExpr<String> = right.boolean();
                match op {
                    LogicOp::And => expr_and(a, b),
                    LogicOp::Or => expr_or(a, b),
                    LogicOp::Implies => expr_or(expr_not(a), b),
                    LogicOp::Iff => {
                        let both: BooleanExpr<String> = expr_and(expr_clone(&a), expr_clone(&b));
                        expr_or(both, expr_and(expr_not(a), expr_not(b)))
                    },
                }
            },
        }
    }
}

pub open spec fn too_many_atoms() -> Seq<char> {
    "等价检查最多支持 12 个不同命题。"@
}

/// Two formulas are equivalent when they agree under every valuation.
pub open spec fn spec_equivalent(a: FormulaV, b: FormulaV) -> bool {
    forall|t: Set<Seq<char>>| holds(a, t) == holds(b, t)
}

proof fn lemma_sorted_no_duplicates(names: Seq<Seq<char>>)
    requires
        strictly_sorted(names),
    ensures
        names.no_duplicates(),
{
    assert forall|i: int, j: int| 0 <= i < names.len() && 0 <= j < names.len() && i != j implies names[i]
        != names[j] by {
        lemma_text_less_total(names[i], names[i]);
        lemma_text_less_total(names[j], names[j]);
    }
}

impl Formula {
    /// Whether two formulas take the same value under every valuation of their letters,
    /// for at most twelve letters between them.
    pub fn equivalent(&self, other: &Formula) -> (result: Result<bool, ParseError>)
        ensures
            spec_atoms(self@).union(spec_atoms(other@)).len() > 12 ==> (result matches Err(e)
                && e.0@ == too_many_atoms()),
            spec_atoms(self@).union(spec_atoms(other@)).len() <= 12 ==> (result matches Ok(same)
                && same == spec_equivalent(self@, other@)),
    {
        let mut names: Vec<String> = self.atoms();
        let more: Vec<String> = other.atoms();
        let ghost first = string_views(names@).to_set();
        let mut k: usize = 0;
        while k < more.len()
            invariant
                k <= more.len(),
                strictly_sorted(string_views(names@)),
                string_views(more@).to_set() == spec_atoms(other@),
                string_views(names@).to_set() == first.union(string_views(more@).take(
                    k as int,
                ).to_set()),
                first == spec_atoms(self@),
            decreases more.len() - k,
        {
            let ghost before = string_views(names@).to_set();
            insert_sorted(&mut names, &more[k]);
            proof {
                let taken = string_views(more@).take(k as int);
                assert(string_views(more@).take(k + 1) =~= taken.push(more@[k as int]@));
                taken.lemma_push_to_set_commute(more@[k as int]@);
                assert(first.union(taken.to_set()).insert(more@[k as int]@) =~= first.union(
                    taken.push(more@[k as int]@).to_set(),
                ));
            }
            k += 1;
        }
        proof {
            assert(string_views(more@).take(more.len() as int) =~= string_views(more@));
            lemma_sorted_no_duplicates(string_views(names@));
            string_views(names@).unique_seq_to_set();
            assert(string_views(names@).len() == names@.len());
        }
        if names.len() > 12 {
            return Err(ParseError::from_str("等价检查最多支持 12 个不同命题。"));
        }
        let mut bdd: BDD<String> = bdd_new();
        let left: usize = bdd_from_expr(&mut bdd, &self.boolean());
        let ghost mid = bdd;
        let right: usize = bdd_from_expr(&mut bdd, &other.boolean());
        proof {
            assert(bdd_valid(mid, left));
            if spec_equivalent(self@, other@) {
                assert forall|t: Set<Seq<char>>| bdd_holds(bdd, left, t) == bdd_holds(
                    bdd,
                    right,
                    t,
                ) by {
                    assert(holds(self@, t) == holds(other@, t));
                }
            }
            if left == right {
                assert forall|t: Set<Seq<char>>| holds(self@, t) == holds(other@, t) by {
                    assert(bdd_holds(bdd, left, t) == bdd_holds(mid, left, t));
                }
            }
        }
        Ok(left == right)
    }
}

} // verus!
