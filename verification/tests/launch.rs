use stepwise::exercises::{Exercise, ProofQuestion, Question, QuestionSet, Reading};
use stepwise::launch::{
    assign, assignment, check_proof, custom_exercise, equivalence_sentence, evaluation_positions,
    listing, named, no_questions, no_trace, nothing_to_assign, proof_to_open, trace_line,
};
use stepwise::teaching::Language;

#[test]
fn an_assignment_is_a_trimmed_name_and_value() {
    assert_eq!(assignment("x=3").unwrap(), ("x".into(), "3".into()));
    assert_eq!(assignment(" flag = False ").unwrap(), ("flag".into(), "False".into()));
    assert_eq!(assignment("s=a=b").unwrap(), ("s".into(), "a=b".into()));
    assert_eq!(assignment("x3").unwrap_err(), "赋值格式为 x=3 或 P=true");
    assert_eq!(assignment(" =3").unwrap_err(), "变量名称和值不能为空。");
    assert_eq!(assignment("x= ").unwrap_err(), "变量名称和值不能为空。");
}

fn set() -> QuestionSet {
    let questions = vec![
        Question::Evaluation(Exercise {
            set: String::new(),
            name: "sum".into(),
            title: "加法".into(),
            language: Language::Python,
            expression: "1 + 2".into(),
            note: None,
            bindings: Vec::new(),
            evaluation: None,
        }),
        Question::Proof(ProofQuestion {
            set: String::new(),
            name: "mp".into(),
            title: "肯定前件".into(),
            note: None,
            premises: vec!["P -> Q".into(), "P".into()],
            conclusion: "Q".into(),
        }),
    ];
    let readings = vec![
        Reading { literals: Vec::new(), session: Ok(()) },
        Reading { literals: Vec::new(), session: Ok(()) },
    ];
    QuestionSet::assemble(1, "probe".into(), "探针题集".into(), None, questions, &readings).unwrap()
}

#[test]
fn a_name_means_a_question_of_this_language_or_says_why_not() {
    let set = set();
    assert_eq!(named(&set, "sum", Language::Python).unwrap().name(), "sum");
    assert_eq!(named(&set, "mp", Language::Logic).unwrap().name(), "mp");
    assert_eq!(
        named(&set, "nope", Language::Python).unwrap_err(),
        "题集 probe 里没有题目 nope；用 --python --list 查看可用 ID。"
    );
    assert_eq!(named(&set, "mp", Language::Python).unwrap_err(), "题目 mp 是证明题，请改用 --logic。");
    assert_eq!(
        named(&set, "sum", Language::Logic).unwrap_err(),
        "题目 sum 是 --python 的题目，当前是 --logic。"
    );
    assert_eq!(
        no_questions(&set, Language::Logic),
        "题集 probe 里没有 --logic 的题目；用 --list 查看题集内容。"
    );
}

fn exercise(bindings: Vec<(&str, &str)>) -> Exercise {
    Exercise {
        set: String::new(),
        name: "guard".into(),
        title: "短路".into(),
        language: Language::Python,
        expression: "x > 0 and y".into(),
        note: None,
        bindings: bindings.into_iter().map(|(n, v)| (n.to_string(), v.to_string())).collect(),
        evaluation: None,
    }
}

fn proof_question(name: &str) -> ProofQuestion {
    ProofQuestion {
        set: String::new(),
        name: name.into(),
        title: "肯定前件".into(),
        note: None,
        premises: vec!["P -> Q".into(), "P".into()],
        conclusion: "Q".into(),
    }
}

#[test]
fn assignments_replace_the_questions_values_and_stay_sorted_by_name() {
    let assigned: Vec<(String, String)> = vec![("y".into(), "2".into()), ("a".into(), "1".into())];
    match assign(Question::Evaluation(exercise(vec![("x", "5"), ("y", "0")])), &assigned).unwrap() {
        Question::Evaluation(e) => assert_eq!(
            e.bindings,
            vec![
                ("a".to_string(), "1".to_string()),
                ("x".to_string(), "5".to_string()),
                ("y".to_string(), "2".to_string())
            ]
        ),
        other => panic!("still an evaluation: {other:?}"),
    }
}

#[test]
fn a_name_assigned_twice_or_an_assignment_to_a_proof_is_refused() {
    let twice: Vec<(String, String)> =
        vec![("x".into(), "1".into()), ("y".into(), "1".into()), ("x".into(), "2".into())];
    assert_eq!(
        assign(Question::Evaluation(exercise(vec![])), &twice).unwrap_err(),
        "变量 x 被重复赋值。"
    );
    let one: Vec<(String, String)> = vec![("P".into(), "True".into())];
    assert_eq!(
        assign(Question::Proof(proof_question("mp")), &one).unwrap_err(),
        "题目 mp 是证明题，--assign 对它没有意义。"
    );
    assert!(assign(Question::Proof(proof_question("mp")), &Vec::new()).is_ok());
}

#[test]
fn a_listing_line_names_the_question_and_what_it_asks() {
    assert_eq!(
        listing(&Question::Evaluation(exercise(vec![("x", "5"), ("y", "True")]))),
        "guard\t短路\tx > 0 and y\tx=5 y=True"
    );
    assert_eq!(listing(&Question::Proof(proof_question("mp"))), "mp\t肯定前件\tP -> Q，P ⊢ Q\t");
}

#[test]
fn only_evaluation_questions_take_assignments() {
    let questions: Vec<Question> = vec![
        Question::Proof(proof_question("mp")),
        Question::Evaluation(exercise(vec![])),
        Question::Proof(proof_question("raa")),
        Question::Evaluation(exercise(vec![])),
    ];
    assert_eq!(evaluation_positions(&questions), vec![1, 3]);
    assert_eq!(
        nothing_to_assign(&set(), Language::Logic),
        "题集 probe 里 --logic 没有求值题，--assign 没有可赋值的题目。"
    );
}

#[test]
fn the_proof_to_open_comes_from_the_goal_or_the_named_question() {
    let premises: Vec<String> = vec!["P".into()];
    let goal: String = "P".into();
    let custom = proof_to_open(Some(&goal), &premises, None, false).unwrap().unwrap();
    assert_eq!(custom.name, "custom-proof");
    assert_eq!(custom.title, "自定义证明");
    assert_eq!(custom.premises, premises);
    let named_proof = Question::Proof(proof_question("mp"));
    assert_eq!(proof_to_open(None, &Vec::new(), Some(&named_proof), true).unwrap().unwrap().name, "mp");
    let evaluation = Question::Evaluation(exercise(vec![]));
    assert_eq!(
        proof_to_open(None, &Vec::new(), Some(&evaluation), true).unwrap_err(),
        "题目 guard 是求值题，不是证明题；用 --exercise guard 打开它。"
    );
    assert!(proof_to_open(None, &Vec::new(), Some(&evaluation), false).unwrap().is_none());
}

#[test]
fn a_written_proof_prints_each_accepted_line_and_says_whether_it_is_done() {
    let done: Vec<String> = vec!["Q ; mp ; 1,2".into()];
    let (lines, outcome) = check_proof(&proof_question("mp"), &done);
    assert_eq!(lines.len(), 1);
    assert!(lines[0].starts_with("Q ; mp ; 1,2\n"));
    assert!(outcome.is_ok());
    let (lines, outcome) = check_proof(&proof_question("mp"), &Vec::new());
    assert!(lines.is_empty());
    assert_eq!(outcome.unwrap_err(), "步骤合法，但尚未在所有假设之外得到目标。");
    let wrong: Vec<String> = vec!["R ; mp ; 1,2".into(), "Q ; mp ; 1,2".into()];
    let (lines, outcome) = check_proof(&proof_question("mp"), &wrong);
    assert!(lines.is_empty());
    assert!(outcome.is_err());
}

#[test]
fn a_custom_question_and_the_trace_sentences() {
    let custom: Exercise = custom_exercise(Language::Logic, "P ∧ Q".into());
    assert_eq!(custom.name, "custom-logic");
    assert_eq!(custom.title, "自定义练习");
    assert!(custom.bindings.is_empty());
    assert_eq!(custom_exercise(Language::Python, "1".into()).name, "custom-python");
    assert_eq!(trace_line(3, "6 / 0", Some("ZeroDivisionError"), "除数为零。"), "3. 将「6 / 0」替换为 ZeroDivisionError\n   除数为零。");
    assert_eq!(trace_line(12, "(4)", None, "已去掉这一层括号。"), "12. 去掉「(4)」的一层括号\n   已去掉这一层括号。");
    assert_eq!(no_trace("raa"), "证明题没有逐步演示；写好的证明用 --proof raa --check-proof FILE 检查。");
    assert_eq!(equivalence_sentence(true), "等价：所有赋值下真值相同。");
    assert_eq!(equivalence_sentence(false), "不等价：存在使两者真值不同的赋值。");
}
