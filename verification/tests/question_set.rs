use stepwise::exercises::{
    Exercise, Invalid, ProofQuestion, Question, QuestionSet, Reading, BUILTIN_SET, FORMAT_VERSION,
};
use stepwise::teaching::{EvaluationMode, Language, ParseError};

fn python(name: &str, expression: &str, bindings: &[(&str, &str)]) -> Question {
    Question::Evaluation(Exercise {
        set: String::new(),
        name: name.into(),
        title: "一道题".into(),
        language: Language::Python,
        expression: expression.into(),
        note: Some("题面".into()),
        bindings: bindings.iter().map(|(n, v)| ((*n).into(), (*v).into())).collect(),
        evaluation: None,
    })
}

fn logic(name: &str, bindings: &[(&str, &str)]) -> Question {
    Question::Evaluation(Exercise {
        set: String::new(),
        name: name.into(),
        title: "真值".into(),
        language: Language::Logic,
        expression: "P ∧ Q".into(),
        note: None,
        bindings: bindings.iter().map(|(n, v)| ((*n).into(), (*v).into())).collect(),
        evaluation: None,
    })
}

fn deduction(name: &str, premises: &[&str], conclusion: &str) -> Question {
    Question::Proof(ProofQuestion {
        set: String::new(),
        name: name.into(),
        title: "一道证明题".into(),
        note: Some("题面".into()),
        premises: premises.iter().map(|p| (*p).into()).collect(),
        conclusion: conclusion.into(),
    })
}

fn fine(literals: usize) -> Reading {
    Reading { literals: vec![true; literals], session: Ok(()) }
}

fn readings(questions: &[Question]) -> Vec<Reading> {
    questions
        .iter()
        .map(|q| match q {
            Question::Evaluation(e) => fine(e.bindings.len()),
            Question::Proof(_) => fine(0),
        })
        .collect()
}

fn assemble(name: &str, title: &str, questions: Vec<Question>) -> Result<QuestionSet, Invalid> {
    let read: Vec<Reading> = readings(&questions);
    QuestionSet::assemble(FORMAT_VERSION, name.into(), title.into(), None, questions, &read)
}

fn invalid(name: &str, title: &str, questions: Vec<Question>) -> Invalid {
    match assemble(name, title, questions) {
        Err(invalid) => invalid,
        Ok(_) => panic!("the set should have been refused"),
    }
}

#[test]
fn one_set_carries_python_logic_and_proof_questions_with_their_fields_intact() {
    let mut eager = python("py", "guard and (count / step)", &[("count", "6"), ("guard", "False"), ("step", "3")]);
    if let Question::Evaluation(e) = &mut eager {
        e.evaluation = Some(EvaluationMode::Eager);
        e.note = Some("题面一".into());
    }
    let set: QuestionSet = assemble(
        "mixed",
        "混合题集",
        vec![eager, logic("lg", &[("P", "True"), ("Q", "False")]), deduction("p1", &["P -> Q", "P"], "Q")],
    )
    .unwrap();
    assert_eq!(set.name(), "mixed");
    assert_eq!(set.title(), "混合题集");
    assert_eq!(set.version(), 1);
    assert_eq!(set.questions().len(), 3);
    assert_eq!(set.exercises().len(), 2);

    let py: &Exercise = set.find("py").unwrap().evaluation().unwrap();
    assert_eq!(py.set, "mixed");
    assert_eq!(py.language, Language::Python);
    assert_eq!(py.note.as_deref(), Some("题面一"));
    assert_eq!(py.mode(), EvaluationMode::Eager);
    assert_eq!(py.assignments(), "count=6 guard=False step=3");
    assert_eq!(py.prompt(), "赋值：count=6 guard=False step=3。题面一");

    let lg: &Exercise = set.find("lg").unwrap().evaluation().unwrap();
    assert_eq!(lg.evaluation, None);
    assert_eq!(lg.mode(), Language::Logic.default_mode());
    assert_eq!(lg.mode(), EvaluationMode::Eager);
    assert_eq!(lg.prompt(), "赋值：P=True Q=False。");

    let question: &Question = set.find("p1").unwrap();
    assert_eq!(question.language(), Language::Logic);
    assert_eq!(question.title(), "一道证明题");
    assert_eq!(question.set(), "mixed");
    assert!(question.evaluation().is_none());
    let Question::Proof(proof_question) = question else {
        panic!("a proof question stays one");
    };
    assert_eq!(proof_question.sequent(), "P -> Q，P ⊢ Q");
    let identity = ProofQuestion { premises: Vec::new(), conclusion: "P -> P".into(), ..proof_question.clone() };
    assert_eq!(identity.sequent(), "⊢ P -> P");
    let opened = proof_question.to_proof().unwrap();
    assert_eq!(opened.lines().len(), 2);
    assert_eq!(opened.goal().render(), "Q");
    assert!(!opened.is_finished());
    assert!(set.find("no-such-question").is_none());

    assert_eq!(set.of_language(Language::Logic).len(), 2);
    assert_eq!(set.of_language(Language::Python).len(), 1);
    assert_eq!(set.evaluations(Language::Logic).len(), 1);
    assert_eq!(set.evaluations(Language::Python)[0].name, "py");
}

#[test]
fn question_names_are_present_unique_and_titles_are_not_blank() {
    let duplicate = invalid("probe", "探针题集", vec![python("q1", "1 + 2", &[]), python("q1", "2 + 3", &[])]);
    assert_eq!(duplicate.question.as_deref(), Some("q1"));
    assert_eq!(duplicate.field, "name");
    assert!(duplicate.text().contains("题目 q1 的 name 字段"));
    assert!(duplicate.text().contains("重复"));

    let blank_name = invalid("probe", "探针题集", vec![python("  ", "1 + 2", &[])]);
    assert_eq!(blank_name.question.as_deref(), Some("#1"));
    assert_eq!(blank_name.field, "name");
    assert!(blank_name.text().contains("题目 #1 的 name 字段"));
    assert!(blank_name.text().contains("题目名称不能为空"));

    let mut untitled = python("q1", "1 + 2", &[]);
    if let Question::Evaluation(e) = &mut untitled {
        e.title = String::new();
    }
    let blank_title = invalid("probe", "探针题集", vec![untitled]);
    assert_eq!(blank_title.question.as_deref(), Some("q1"));
    assert_eq!(blank_title.field, "title");
    assert!(blank_title.text().contains("题目标题不能为空"));
}

#[test]
fn a_set_needs_a_name_a_title_and_at_least_one_question() {
    let blank_name = invalid("", "探针题集", vec![python("q1", "1 + 2", &[])]);
    assert_eq!(blank_name.question, None);
    assert_eq!(blank_name.field, "name");
    assert!(blank_name.text().contains("题集名称不能为空"));
    assert!(blank_name.text().starts_with("题集的 name 字段："));

    let blank_title = invalid("probe", " ", vec![python("q1", "1 + 2", &[])]);
    assert_eq!(blank_title.field, "title");
    assert!(blank_title.text().contains("题集标题不能为空"));

    let empty = invalid("probe", "探针题集", Vec::new());
    assert_eq!(empty.field, "questions");
    assert!(empty.text().contains("题集里没有题目"));
}

#[test]
fn a_binding_must_be_a_source_literal_of_its_own_language() {
    let questions = vec![python("q1", "x + 1", &[("x", "maybe")])];
    let read = vec![Reading { literals: vec![false], session: Ok(()) }];
    let refused = QuestionSet::assemble(1, "probe".into(), "探针题集".into(), None, questions, &read)
        .err()
        .unwrap();
    assert_eq!(refused.question.as_deref(), Some("q1"));
    assert_eq!(refused.field, "bindings");
    assert!(refused.text().contains("x = \"maybe\" 不是可用的取值"));
    assert!(refused.text().contains("Python 源码字面量"));

    let logic_refused = invalid("probe", "探针题集", vec![logic("q2", &[("P", "True"), ("Q", "perhaps")])]);
    assert_eq!(logic_refused.question.as_deref(), Some("q2"));
    assert_eq!(logic_refused.field, "bindings");
    assert!(logic_refused.text().contains("Q = \"perhaps\" 不是可用的取值"));
    assert!(logic_refused.text().contains("真值 True / False"));
}

#[test]
fn an_expression_that_does_not_open_is_refused_with_the_reason_given() {
    let questions = vec![python("q1", "x + 1", &[])];
    let read = vec![Reading {
        literals: Vec::new(),
        session: Err(ParseError::from_str("未给变量 x 赋值。")),
    }];
    let refused = QuestionSet::assemble(1, "probe".into(), "探针题集".into(), None, questions, &read)
        .err()
        .unwrap();
    assert_eq!(refused.field, "expression");
    assert_eq!(refused.text(), "题目 q1 的 expression 字段：未给变量 x 赋值。");
}

#[test]
fn every_premise_and_the_conclusion_must_be_a_formula() {
    let premise = invalid("probe", "探针题集", vec![deduction("p1", &["P -> Q", "P ->"], "Q")]);
    assert_eq!(premise.question.as_deref(), Some("p1"));
    assert_eq!(premise.field, "premises");
    assert!(premise.text().contains("第 2 条「P ->」"));

    let conclusion = invalid("probe", "探针题集", vec![deduction("p1", &["P"], "Q ∧")]);
    assert_eq!(conclusion.question.as_deref(), Some("p1"));
    assert_eq!(conclusion.field, "conclusion");

    let many: Vec<String> = (0..65).map(|i| format!("P{i}")).collect();
    let crowded = invalid(
        "probe",
        "探针题集",
        vec![deduction("p1", &many.iter().map(String::as_str).collect::<Vec<_>>(), "Q")],
    );
    assert_eq!(crowded.field, "premises");
    assert!(crowded.text().contains("65 条前提"));
}

#[test]
fn a_set_is_refused_when_it_holds_too_many_questions_or_too_many_bytes() {
    let questions = |count: usize| -> Vec<Question> {
        (0..count).map(|i| python(&format!("q{i}"), &format!("1 + {i}"), &[])).collect()
    };
    assert_eq!(assemble("probe", "探针题集", questions(1024)).unwrap().questions().len(), 1024);
    let over = invalid("probe", "探针题集", questions(1025));
    assert_eq!(over.field, "questions");
    assert!(over.text().contains("1025"));
    assert!(over.text().contains("超过上限 1024"));

    let weighed = QuestionSet::check_size((1 << 20) + 1).err().unwrap();
    assert_eq!(weighed.question, None);
    assert_eq!(weighed.field, "");
    assert!(weighed.text().starts_with("题集文件："));
    assert!(weighed.text().contains("字节"));
    assert!(QuestionSet::check_size(1 << 20).is_ok());
}

#[test]
fn a_set_from_another_protocol_names_the_version() {
    let refused = QuestionSet::check_version(2).err().unwrap();
    assert_eq!(refused.field, "version");
    assert_eq!(refused.message, "这个程序读 version = 1 的题集，文件写的是 2。");
    assert!(QuestionSet::check_version(FORMAT_VERSION).is_ok());
}

#[test]
fn an_imported_file_may_not_call_itself_the_embedded_set() {
    let claiming = assemble(BUILTIN_SET, "冒名题集", vec![python("q1", "1 + 2", &[])]).unwrap();
    assert_eq!(claiming.name(), BUILTIN_SET);
    let refused = QuestionSet::import(claiming).err().unwrap();
    assert_eq!(refused.field, "id");
    assert!(refused.text().contains(BUILTIN_SET));
    // The command line prints this same refusal for a claiming file.
    assert!(refused.text().contains("留给内置题集"));
    let other = assemble("mine", "我的题集", vec![python("q1", "1 + 2", &[])]).unwrap();
    assert_eq!(QuestionSet::import(other).ok().unwrap().name(), "mine");
}

#[test]
fn bindings_are_listed_by_name_with_no_name_twice() {
    for bindings in [&[("y", "1"), ("x", "2")][..], &[("x", "1"), ("x", "2")][..]] {
        let refused = invalid("probe", "探针题集", vec![python("q1", "x + 1", bindings)]);
        assert_eq!(refused.question.as_deref(), Some("q1"));
        assert_eq!(refused.field, "bindings");
        assert!(refused.text().contains("赋值必须按名称排列，每个名称只出现一次。"));
    }
    let set = assemble("probe", "探针题集", vec![python("q1", "x + y", &[("x", "1"), ("y", "2")])]).unwrap();
    match &set.questions()[0] {
        Question::Evaluation(exercise) => assert_eq!(exercise.assignments(), "x=1 y=2"),
        Question::Proof(_) => panic!("an evaluation question"),
    }
}
