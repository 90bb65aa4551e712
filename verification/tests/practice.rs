use stepwise::exercises::{Exercise, ProofQuestion, Question};
use stepwise::practice::course::{Course, Supply};
use stepwise::practice::notice::{Notice, Report};
use stepwise::practice::draft::DRAFT_LIMIT;
use stepwise::practice::proving::ProofPractice;
use stepwise::practice::start::{proof_finished, resume_in_set, resume_or_generate, saved_candidate, starting_mode};
use stepwise::practice::transcript::Transcript;
use stepwise::generate::random_name;
use stepwise::progress::Progress;
use stepwise::teaching::{EvaluationMode, Feedback, FeedbackKind, Language, ParseError, RecordedAttempt};

fn written(premises: &[&str], conclusion: &str) -> ProofQuestion {
    ProofQuestion {
        set: String::new(),
        name: "custom-proof".into(),
        title: "自定义证明".into(),
        note: None,
        premises: premises.iter().map(|premise| (*premise).into()).collect(),
        conclusion: conclusion.into(),
    }
}

fn exercise(set: &str, name: &str, language: Language) -> Exercise {
    Exercise {
        set: set.into(),
        name: name.into(),
        title: "一道题".into(),
        language,
        expression: "1 + 2".into(),
        note: None,
        bindings: Vec::new(),
        evaluation: None,
    }
}

fn taught(report: &Report) -> (String, bool) {
    match report {
        Report::Taught { message, accepted } => (message.clone(), *accepted),
        other => panic!("expected a taught report, got {other:?}"),
    }
}

#[test]
fn a_proof_is_submitted_undone_and_resumed_from_its_saved_commands() {
    let goal: ProofQuestion = written(&["P", "P -> Q"], "Q");
    let mut session: ProofPractice = ProofPractice::new(goal.clone(), Progress::default()).unwrap();
    assert!(matches!(session.report(), Report::Notice(Notice::ProofStart)));
    assert_eq!(
        session.opening(),
        ["自然演绎 · 目标：Q", "1 P [premise ]", "2 (P → Q) [premise ]"]
    );

    // Semantic equivalence never authorises a step.
    session.paste("Q ; and-intro ; 1,2");
    assert!(!session.submit());
    assert!(!session.report().good());
    assert_eq!(session.current_proof().lines().len(), 2);
    assert_eq!(session.input(), "Q ; and-intro ; 1,2");

    session.clear_input();
    session.paste("Q ; mp ; 1,2");
    assert!(session.submit());
    assert!(session.report().good());
    assert!(taught(session.report()).0.starts_with("正确。"));
    assert!(session.is_finished());
    assert!(session.input().is_empty());
    assert_eq!(session.appended(2), ["3 Q [mp 1,2]"]);
    assert!(session.appended(3).is_empty());
    session.record();
    assert!(session.progress().points_at("", "custom-proof"));

    // Resume: the saved commands alone rebuild the finished proof.
    let resumed: ProofPractice = ProofPractice::new(goal.clone(), session.progress().clone()).unwrap();
    assert!(resumed.is_finished());
    assert_eq!(resumed.current_proof().lines().len(), 3);

    // Undo reopens the proof, and recording that removes the saved command.
    let mut resumed: ProofPractice = resumed;
    assert!(resumed.undo());
    assert!(matches!(resumed.report(), Report::Notice(Notice::ProofUndone)));
    assert!(!resumed.is_finished());
    assert_eq!(resumed.appended(3), ["↶ 撤销第 3 行及其假设作用域变更。"]);
    resumed.record();
    assert!(!ProofPractice::new(goal, resumed.progress().clone()).unwrap().is_finished());
    assert!(!resumed.undo());
}

#[test]
fn nested_assumptions_are_indented_in_the_transcript_lines() {
    let mut session = ProofPractice::new(written(&[], "P -> P"), Progress::default()).unwrap();
    session.paste("P ; assume");
    assert!(session.submit());
    session.paste("P -> P ; imp-intro ; 1,1");
    assert!(session.submit());
    assert_eq!(session.lines_from(0), ["1 │ P [assume ]", "2 (P → P) [imp-intro 1,1]"]);
}

#[test]
fn the_draft_refuses_control_characters_and_stops_at_its_limit() {
    let mut session = ProofPractice::new(written(&["P"], "P"), Progress::default()).unwrap();
    assert!(!session.type_character('\n'));
    assert!(session.type_character('P'));
    session.backspace();
    assert!(session.input().is_empty());
    session.backspace();
    session.paste("a\u{7}b\nc");
    assert_eq!(session.input(), "abc");
    session.clear_input();
    session.paste(&"中".repeat(DRAFT_LIMIT));
    assert_eq!(session.input().len(), DRAFT_LIMIT / 3 * 3);
    assert!(!session.type_character('中'));
    assert!(session.type_character('x'));
    assert!(session.type_character('y'));
    assert!(!session.type_character('z'));
    assert_eq!(session.input().len(), DRAFT_LIMIT);
}

#[test]
fn a_note_or_notice_replaces_what_the_front_end_shows() {
    let mut session = ProofPractice::new(written(&["P"], "P"), Progress::default()).unwrap();
    session.note("帮助".into());
    assert!(matches!(session.report(), Report::Note(text) if text == "帮助"));
    session.notify(Notice::CourseEnded);
    assert!(matches!(session.report(), Report::Notice(Notice::CourseEnded)));
}

#[test]
fn a_question_that_does_not_parse_does_not_open() {
    let error = ProofPractice::new(written(&["P ->"], "P"), Progress::default()).unwrap_err();
    assert!(!error.message().is_empty());
}

#[test]
fn a_report_from_feedback_is_good_news_only_when_correct() {
    let good: Report = Report::from(Feedback::new(FeedbackKind::Correct, "正确。".into()));
    assert!(good.good());
    let bad: Report = Report::from(Feedback::new(FeedbackKind::WrongValue, "不对。".into()));
    assert!(!bad.good());
    assert!(!Report::Note("帮助".into()).good());
    assert!(!Report::Notice(Notice::Start).good());
}

#[test]
fn a_random_course_draws_after_its_last_question_and_an_ordered_one_ends() {
    let first = Question::Evaluation(exercise("", "random-v1-python-1", Language::Python));
    let mut random = Course::random(vec![first], 0).unwrap();
    assert_eq!(random.supply(), Supply::Random);
    assert!(random.forward(|language| Ok(exercise("", &random_name(language, 3), language))).unwrap());
    assert_eq!(random.index(), 1);
    assert_eq!(random.questions().len(), 2);
    assert_eq!(random.current().name(), "random-v1-python-3");
    assert_eq!(random.language(), Language::Python);
    let refused = random.forward(|_| Err(ParseError::from_str("没有合适的题目。"))).unwrap_err();
    assert_eq!(refused.message(), "没有合适的题目。");
    assert_eq!(random.index(), 1);
    assert!(random.backward());
    assert_eq!(random.index(), 0);
    assert!(!random.backward());
    assert_eq!(random.index(), 0);
    // Moving forward within the questions already drawn draws nothing.
    assert!(random.forward(|_| panic!("nothing is drawn here")).unwrap());
    assert_eq!(random.index(), 1);

    let questions = vec![
        Question::Evaluation(exercise("s", "a", Language::Python)),
        Question::Proof(written(&["P"], "P")),
    ];
    let mut ordered = Course::ordered(questions, 0).unwrap();
    assert!(ordered.forward(|_| panic!("an ordered course never draws")).unwrap());
    assert_eq!(ordered.language(), Language::Logic);
    assert!(!ordered.forward(|_| panic!("an ordered course never draws")).unwrap());
    assert_eq!(ordered.index(), 1);

    let nowhere = Course::new(Vec::new(), 0, Supply::Ordered).unwrap_err();
    assert_eq!(nowhere.message(), "没有这道题。");
}

fn proved(question: &ProofQuestion, lines: &[&str], progress: Progress) -> Progress {
    let mut practice = ProofPractice::new(question.clone(), progress).unwrap();
    for line in lines {
        practice.paste(line);
        assert!(practice.submit(), "{line}");
    }
    practice.record();
    practice.progress().clone()
}

fn stamped(set: &str, mut question: ProofQuestion, name: &str) -> ProofQuestion {
    question.set = set.into();
    question.name = name.into();
    question
}

#[test]
fn an_ordered_set_opens_at_the_first_unfinished_question_from_the_saved_pointer() {
    let first = stamped("set", written(&["P"], "P & P"), "p1");
    let second = stamped("set", written(&["Q"], "Q & Q"), "p2");
    let third = stamped("set", written(&["R"], "R & R"), "p3");
    let questions = vec![
        Question::Proof(first.clone()),
        Question::Proof(second.clone()),
        Question::Proof(third.clone()),
    ];
    let never = |_: &Exercise, _: EvaluationMode| -> Result<bool, ParseError> {
        panic!("a proof set asks nothing of an evaluation")
    };
    assert_eq!(resume_in_set(&Progress::default(), &questions, None, never).unwrap(), 0);

    let done_first = proved(&first, &["P & P ; and-intro ; 1,1"], Progress::default());
    assert!(proof_finished(&first, &done_first).unwrap());
    assert_eq!(resume_in_set(&done_first, &questions, None, never).unwrap(), 1);

    let opened_second = proved(&second, &[], done_first.clone());
    assert!(opened_second.points_at("set", "p2"));
    assert_eq!(resume_in_set(&opened_second, &questions, None, never).unwrap(), 1);

    let all = proved(&third, &["R & R ; and-intro ; 1,1"], proved(&second, &["Q & Q ; and-intro ; 1,1"], done_first));
    assert_eq!(resume_in_set(&all, &questions, None, never).unwrap(), 2);
}

#[test]
fn an_evaluation_question_asks_the_caller_whether_its_work_is_finished() {
    let questions = vec![
        Question::Evaluation(exercise("set", "a", Language::Python)),
        Question::Evaluation(exercise("set", "b", Language::Python)),
    ];
    let first_done = |e: &Exercise, _: EvaluationMode| -> Result<bool, ParseError> { Ok(e.name == "a") };
    assert_eq!(resume_in_set(&Progress::default(), &questions, None, first_done).unwrap(), 1);
    let broken = |_: &Exercise, _: EvaluationMode| -> Result<bool, ParseError> {
        Err(ParseError::from_str("无法重放。"))
    };
    assert_eq!(
        resume_in_set(&Progress::default(), &questions, None, broken).unwrap_err().message(),
        "无法重放。"
    );
}

#[test]
fn the_starting_strategy_is_the_request_then_the_saved_one_then_the_questions_own() {
    let question = Question::Evaluation(exercise("set", "a", Language::Python));
    let mut progress = Progress::default();
    assert_eq!(starting_mode(None, &progress, &question), EvaluationMode::ShortCircuit);
    progress.record("set", "a", EvaluationMode::Eager, "key", &[]);
    assert_eq!(starting_mode(None, &progress, &question), EvaluationMode::Eager);
    assert_eq!(
        starting_mode(Some(EvaluationMode::ShortCircuit), &progress, &question),
        EvaluationMode::ShortCircuit
    );
    let logic = Question::Evaluation(exercise("set", "l", Language::Logic));
    assert_eq!(starting_mode(None, &progress, &logic), EvaluationMode::Eager);
    let proof = Question::Proof(written(&["P"], "P"));
    assert_eq!(starting_mode(None, &progress, &proof), EvaluationMode::Eager);
}

#[test]
fn random_practice_reopens_unfinished_work_and_draws_otherwise() {
    let questions = vec![Question::Evaluation(exercise("set", "a", Language::Python))];
    let mut progress = Progress::default();
    progress.record(
        "set",
        "a",
        EvaluationMode::ShortCircuit,
        "key-a",
        &[RecordedAttempt { node_id: 0, input: Some("3".into()) }],
    );
    let key = |_: &Exercise, _: EvaluationMode| -> Result<String, ParseError> { Ok("key-a".into()) };
    let unfinished = |_: &Exercise, _: EvaluationMode| -> Result<bool, ParseError> { Ok(false) };
    let finished = |_: &Exercise, _: EvaluationMode| -> Result<bool, ParseError> { Ok(true) };
    let restore = |_: &str| -> Result<Option<Exercise>, ParseError> { panic!("the pointer names a set") };
    let draw = |language: Language| -> Result<Exercise, ParseError> {
        Ok(exercise("", &random_name(language, 9), language))
    };

    let reopened = resume_or_generate(Language::Python, &progress, &questions, restore, key, unfinished, draw).unwrap();
    assert_eq!(reopened.name(), "a");
    let moved_on = resume_or_generate(Language::Python, &progress, &questions, restore, key, finished, draw).unwrap();
    assert_eq!(moved_on.name(), "random-v1-python-9");
    let other_language = resume_or_generate(Language::Logic, &progress, &questions, restore, key, unfinished, draw).unwrap();
    assert_eq!(other_language.name(), "random-v1-logic-9");
    assert_eq!(other_language.language(), Language::Logic);

    // A random question in hand is restored from its name and reopened while unfinished.
    let mut random = Progress::default();
    random.record("", "random-v1-python-7", EvaluationMode::ShortCircuit, "k", &[]);
    let restored = |name: &str| -> Result<Option<Exercise>, ParseError> {
        Ok(Some(exercise("", name, Language::Python)))
    };
    let again = resume_or_generate(Language::Python, &random, &[], restored, key, unfinished, draw).unwrap();
    assert_eq!(again.name(), "random-v1-python-7");
    assert!(saved_candidate(Language::Logic, &random, &[], Some(exercise("", "x", Language::Python))).is_none());
}

#[test]
fn the_transcript_archives_changed_states_once_and_marks_steps_taken_back() {
    let mut transcript = Transcript::new();
    let attempt = |input: &str| RecordedAttempt { node_id: 1, input: Some(input.into()) };
    let start = Report::Notice(Notice::Start);
    assert_eq!(
        transcript.evaluation("k".into(), "Python 运算练习", "x=1", &[], &[], "x + 1", &start),
        ["Python 运算练习", "x=1"]
    );
    assert_eq!(
        transcript.evaluation("k".into(), "Python 运算练习", "x=1", &[attempt("1")], &["x + 1".into()], "1 + 1", &start),
        ["x + 1"]
    );
    // Nothing changed since the last call.
    assert!(transcript
        .evaluation("k".into(), "Python 运算练习", "x=1", &[attempt("1")], &["x + 1".into()], "1 + 1", &start)
        .is_empty());
    // A restart shortens the attempts: the record says so.
    assert_eq!(
        transcript.evaluation("k".into(), "Python 运算练习", "x=1", &[], &[], "x + 1", &Report::Notice(Notice::Restarted)),
        ["↶ 已重新开始本题。"]
    );
    assert_eq!(
        transcript.evaluation("k".into(), "Python 运算练习", "x=1", &[attempt("1")], &["x + 1".into()], "1 + 1", &start),
        ["x + 1"]
    );
    assert_eq!(
        transcript.evaluation("k".into(), "Python 运算练习", "x=1", &[attempt("2")], &["x + 1".into()], "2 + 1", &Report::Notice(Notice::Undone)),
        ["↶ 已撤销上一步。"]
    );
    // A new question closes the block with what was on screen, then a blank line.
    let proof = ProofPractice::new(written(&["P"], "P"), Progress::default()).unwrap();
    assert_eq!(
        transcript.proof_lines(&proof),
        ["2 + 1", "", "自然演绎 · 目标：P", "1 P [premise ]"]
    );
    assert!(transcript.proof_lines(&proof).is_empty());
}

#[test]
fn a_proof_question_starts_in_the_requested_strategy_or_its_languages_default() {
    let mut mp: ProofQuestion = written(&["P -> Q", "P"], "Q");
    mp.set = "builtin".into();
    mp.name = "mp".into();
    let question: Question = Question::Proof(mp.clone());
    assert_eq!(starting_mode(None, &Progress::default(), &question), EvaluationMode::Eager);
    assert_eq!(
        starting_mode(Some(EvaluationMode::ShortCircuit), &Progress::default(), &question),
        EvaluationMode::ShortCircuit
    );

    let mut pointed: Progress = Progress::default();
    pointed.record("builtin", "mp", EvaluationMode::ShortCircuit, "key", &[]);
    assert_eq!(pointed.mode(), EvaluationMode::ShortCircuit);
    assert!(pointed.points_at("builtin", "mp"));
    assert_eq!(starting_mode(None, &pointed, &question), EvaluationMode::Eager);
}
