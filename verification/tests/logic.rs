use stepwise::logic::deduction::{Proof, RULES};
use stepwise::logic::formula::{debug_list, Formula, LogicOp};
use stepwise::logic::op::{LogicStep, Op};
use stepwise::logic::parse::{parse_formula, parse_truth, tokenize};
use stepwise::teaching::EvaluationMode;

fn formula(source: &str) -> Formula {
    parse_formula(source).unwrap()
}

fn opened(premises: &[&str], goal: &str) -> Proof {
    Proof::new(premises.iter().map(|source| formula(source)).collect(), formula(goal))
}

#[test]
fn ascii_unicode_precedence_and_equivalence() {
    for alias in ["¬", "~", "!", "not "] {
        assert!(formula(&format!("{alias}P")).equals(&formula("~P")));
    }
    for (aliases, canonical) in [
        (vec!["∧", "&", "&&", "and"], "P & Q"),
        (vec!["∨", "|", "||", "or"], "P | Q"),
        (vec!["→", "⇒", "⊃", "->", "=>"], "P -> Q"),
        (vec!["↔", "⇔", "≡", "<->", "<=>"], "P <-> Q"),
    ] {
        for alias in aliases {
            assert!(formula(&format!("P {alias} Q")).equals(&formula(canonical)));
        }
    }
    assert!(formula("¬P ∧ Q → R ↔ S").equals(&formula("((~P & Q) -> R) <-> S")));
    assert!(formula("P -> Q -> R").equals(&formula("P -> (Q -> R)")));
    assert!(formula("P -> Q").equivalent(&formula("~P | Q")).unwrap());
    assert!(formula("~(P & Q)").equivalent(&formula("~P | ~Q")).unwrap());
    assert!(!formula("P -> Q").equivalent(&formula("Q -> P")).unwrap());
    for invalid in ["P Q", "P ->", "∀x P", "P)", "(P", "P + Q"] {
        assert!(parse_formula(invalid).is_err(), "{invalid}");
    }
}

#[test]
fn a_formula_renders_fully_bracketed_with_unicode_connectives() {
    assert_eq!(formula("P -> Q").render(), "(P → Q)");
    assert_eq!(formula("~P & Q").render(), "(¬P ∧ Q)");
    assert_eq!(formula("True | False").render(), "(⊤ ∨ ⊥)");
    assert_eq!(
        debug_list(&vec![formula("P"), formula("~Q")]),
        "[Atom(\"P\"), Not(Atom(\"Q\"))]"
    );
}

#[test]
fn atoms_are_sorted_and_listed_once() {
    assert_eq!(formula("(Q & P) -> (P | R)").atoms(), ["P", "Q", "R"]);
    assert!(formula("True").atoms().is_empty());
}

#[test]
fn equivalence_is_limited_to_twelve_distinct_propositions() {
    let many: String = (0..13).map(|i| format!("A{i}")).collect::<Vec<_>>().join(" & ");
    let error = formula(&many).equivalent(&formula("P")).unwrap_err();
    assert_eq!(error.message(), "等价检查最多支持 12 个不同命题。");
    let twelve: String = (0..12).map(|i| format!("A{i}")).collect::<Vec<_>>().join(" & ");
    assert!(formula(&twelve).equivalent(&formula(&twelve)).unwrap());
}

#[test]
fn truth_literals_accept_every_spelling_and_nothing_else() {
    for yes in ["True", "true", "T", "⊤", "真", " True "] {
        assert_eq!(parse_truth(yes).unwrap(), true, "{yes}");
    }
    for no in ["False", "false", "F", "⊥", "假"] {
        assert_eq!(parse_truth(no).unwrap(), false, "{no}");
    }
    assert!(parse_truth("maybe").is_err());
    assert!(parse_truth("1").is_err());
}

#[test]
fn tokens_keep_their_source_spans() {
    let tokens = tokenize("P ∧ Q").unwrap();
    assert_eq!(tokens.len(), 3);
    assert!(tokenize("P $ Q").is_err());
}

#[test]
fn connectives_apply_their_truth_tables_and_short_circuit_only_where_decided() {
    for op in [LogicOp::And, LogicOp::Or, LogicOp::Implies, LogicOp::Iff] {
        for left in [false, true] {
            for right in [false, true] {
                let expected: bool = match op {
                    LogicOp::And => left && right,
                    LogicOp::Or => left || right,
                    LogicOp::Implies => !left || right,
                    LogicOp::Iff => left == right,
                };
                assert_eq!(op.apply(left, right), expected);
                if let Some(value) = op.short_circuit(left) {
                    assert_eq!(value, expected);
                }
            }
        }
    }
    assert_eq!(LogicOp::And.short_circuit(false), Some(false));
    assert_eq!(LogicOp::Or.short_circuit(true), Some(true));
    assert_eq!(LogicOp::Implies.short_circuit(false), Some(true));
    assert_eq!(LogicOp::Iff.short_circuit(true), None);
    assert_eq!(LogicOp::Implies.symbol(), "→");
}

#[test]
fn a_decided_left_side_skips_the_right_only_with_short_circuit_on() {
    match Op::Binary(LogicOp::And).decide(Some(false), None, EvaluationMode::ShortCircuit) {
        LogicStep::Apply { value, skipped, .. } => {
            assert!(!value);
            assert_eq!(skipped, [1]);
        }
        LogicStep::Operand(_) => panic!("a false left side decides a conjunction"),
    }
    match Op::Binary(LogicOp::And).decide(Some(false), None, EvaluationMode::Eager) {
        LogicStep::Operand(index) => assert_eq!(index, 1),
        LogicStep::Apply { .. } => panic!("eager evaluation takes the right side first"),
    }
    match Op::Not.decide(None, None, EvaluationMode::Eager) {
        LogicStep::Operand(index) => assert_eq!(index, 0),
        LogicStep::Apply { .. } => panic!("the operand comes first"),
    }
}

#[test]
fn modus_ponens_does_not_accept_affirming_consequent() {
    let mut valid: Proof = opened(&["P -> Q", "P"], "Q");
    assert!(valid.submit("Q ; mp ; 1,2").is_ok());
    assert!(valid.is_finished());
    let mut invalid: Proof = opened(&["P -> Q", "Q"], "P");
    assert!(invalid.submit("P ; mp ; 1,2").is_err());
    assert_eq!(invalid.lines().len(), 2);
    assert!(invalid.submit("P ; mp ; 1,3").is_err());
}

#[test]
fn reductio_requires_a_scoped_contradiction_and_discharges_it() {
    let mut practice: Proof = opened(&["~~P"], "P");
    assert!(practice.submit("~P ; assume").is_ok());
    assert!(practice.submit("P ; raa ; 2,2").is_err());
    assert!(practice.submit("False ; not-elim ; 1,2").is_ok());
    assert!(practice.submit("P ; raa ; 2,3").is_ok());
    assert!(practice.is_finished());
    assert!(practice.open_assumptions().is_empty());
    assert!(practice.undo());
    assert_eq!(practice.open_assumptions(), &[2]);
    assert!(!practice.is_finished());
}

#[test]
fn rejects_scope_leaks_and_cross_level_discharge() {
    let mut practice: Proof = opened(&[], "Q");
    practice.submit("P ; assume").unwrap();
    practice.submit("P -> P ; imp-intro ; 1,1").unwrap();
    assert!(practice.submit("P ; copy ; 1").unwrap_err().message().contains("已关闭"));
    practice.submit("Q ; assume").unwrap();
    assert!(!practice.is_finished(), "goal inside an assumption is not a proof");
    practice.submit("R ; assume").unwrap();
    assert!(practice.submit("Q -> R ; imp-intro ; 3,4").is_err());
    practice.submit("R -> R ; imp-intro ; 4,4").unwrap();
    assert!(practice.submit("R ; copy ; 4").is_err());
    assert!(practice.submit("Q ; copy ; 3").is_ok());
}

#[test]
fn introduction_elimination_and_replay() {
    let mut practice: Proof = opened(&["P", "Q"], "Q & P");
    practice.submit("P & Q ; and-intro ; 1,2").unwrap();
    practice.submit("Q ; and-right ; 3").unwrap();
    practice.submit("Q & P ; and-intro ; 4,1").unwrap();
    assert!(practice.is_finished());
    let resumed: Proof = opened(&["P", "Q"], "Q & P").replay(practice.commands()).unwrap();
    assert!(resumed.is_finished());
    let mut implication: Proof = opened(&[], "P -> P");
    implication.submit("P ; assume").unwrap();
    implication.submit("P -> P ; imp-intro ; 1,1").unwrap();
    assert!(implication.is_finished());
}

#[test]
fn semantic_equivalence_does_not_authorize_an_arbitrary_rule() {
    let mut practice: Proof = opened(&["P -> Q"], "~P | Q");
    assert!(formula("P -> Q").equivalent(&formula("~P | Q")).unwrap());
    assert!(practice.submit("~P | Q ; copy ; 1").is_err());
}

#[test]
fn remaining_rules_respect_their_formula_shapes() {
    for (premises, goal, commands) in [
        (vec!["P & Q"], "P | R", vec!["P ; and-left ; 1", "P | R ; or-left ; 2"]),
        (vec!["Q"], "P | Q", vec!["P | Q ; or-right ; 1"]),
        (vec!["False"], "P", vec!["P ; bottom-elim ; 1"]),
        (
            vec!["P <-> Q"],
            "Q -> P",
            vec!["P -> Q ; iff-left ; 1", "Q -> P ; iff-right ; 1"],
        ),
        (vec!["P -> Q", "Q -> P"], "P <-> Q", vec!["P <-> Q ; iff-intro ; 1,2"]),
        (
            vec!["~P"],
            "~P | R",
            vec![
                "P ; assume",
                "False ; not-elim ; 1,2",
                "~P ; not-intro ; 2,3",
                "~P | R ; or-left ; 4",
            ],
        ),
    ] {
        let mut practice: Proof = opened(&premises, goal);
        for command in commands {
            practice.submit(command).unwrap_or_else(|error| panic!("{command}: {}", error.message()));
        }
        assert!(practice.is_finished(), "{goal}");
    }
    let mut practice: Proof = opened(&["P"], "Q | R");
    assert!(practice.submit("Q | R ; or-left ; 1").is_err());
    assert!(practice.submit("Q ; bottom-elim ; 1").is_err());
}

#[test]
fn a_finished_proof_accepts_nothing_more_and_undo_reopens_it() {
    let mut practice: Proof = opened(&["P -> Q", "P"], "Q");
    practice.submit("Q ; mp ; 1,2").unwrap();
    let refused = practice.submit("P ; copy ; 2").unwrap_err();
    assert_eq!(
        refused.message(),
        "结论已在所有假设之外得到；证明已完成。可撤销或切换练习。"
    );
    assert_eq!(practice.commands().len(), 1);
    assert!(practice.undo());
    assert!(!practice.is_finished());
    assert!(!practice.undo());
}

#[test]
fn the_progress_key_names_premises_and_goal_only() {
    let mut practice: Proof = opened(&["P"], "P | Q");
    let key: String = practice.progress_key();
    assert_eq!(key, "proof\n[Atom(\"P\")]\n(P ∨ Q)");
    practice.submit("P | Q ; or-left ; 1").unwrap();
    assert_eq!(practice.progress_key(), key);
}

#[test]
fn the_rule_reference_names_every_rule() {
    for rule in ["assume", "mp", "and-intro", "not-elim", "imp-intro", "raa", "iff-intro", "copy"] {
        assert!(RULES.contains(rule), "{rule}");
    }
}

#[test]
fn a_bound_letter_explains_its_substitution() {
    assert_eq!(
        stepwise::logic::op::binding_explanation("P", true),
        "根据本题赋值，将所有同名命题 P 代入为 True。"
    );
    assert_eq!(
        stepwise::logic::op::binding_explanation("Q", false),
        "根据本题赋值，将所有同名命题 Q 代入为 False。"
    );
}

#[test]
fn two_references_may_come_in_either_order_for_mp_not_elim_and_iff_intro() {
    for references in ["1,2", "2,1"] {
        let mut mp: Proof = opened(&["P -> Q", "P"], "Q");
        assert!(mp.submit(&format!("Q ; mp ; {references}")).is_ok());
        let mut contradiction: Proof = opened(&["P", "~P"], "False");
        assert!(contradiction.submit(&format!("False ; not-elim ; {references}")).is_ok());
        let mut iff: Proof = opened(&["P -> Q", "Q -> P"], "P <-> Q");
        assert!(iff.submit(&format!("P <-> Q ; iff-intro ; {references}")).is_ok());
    }
    // and-intro builds its conjunction in the order cited.
    let mut conjunction: Proof = opened(&["P", "Q"], "Q & P");
    assert!(conjunction.submit("Q & P ; and-intro ; 1,2").is_err());
    assert!(conjunction.submit("Q & P ; and-intro ; 2,1").is_ok());
}

#[test]
fn a_letter_without_a_value_or_a_value_without_a_letter_is_refused() {
    assert_eq!(
        stepwise::logic::op::unbound("P").message(),
        "未给命题 P 赋值；使用 --assign P=true 或 P=false。"
    );
    assert_eq!(stepwise::logic::op::unused("Q").message(), "公式中没有命题 Q。");
}

#[test]
fn each_connective_symbol_reads_back_as_its_connective() {
    for op in [LogicOp::And, LogicOp::Or, LogicOp::Implies, LogicOp::Iff] {
        let read = formula(&format!("P {} Q", op.symbol()));
        let expected = Formula::binary(op, Formula::Atom("P".into()), Formula::Atom("Q".into()));
        assert!(read.equals(&expected), "{}", op.symbol());
    }
    let symbols = [LogicOp::And, LogicOp::Or, LogicOp::Implies, LogicOp::Iff].map(|op| op.symbol());
    assert_eq!(symbols, ["∧", "∨", "→", "↔"]);
}
