use stepwise::teaching::{EvaluationMode, Language, RecordedAttempt};

#[test]
fn strategies_and_languages_have_stable_keys_and_labels() {
    assert_eq!(EvaluationMode::ShortCircuit.key(), "short-circuit");
    assert_eq!(EvaluationMode::Eager.key(), "eager");
    assert_eq!(EvaluationMode::ShortCircuit.toggled(), EvaluationMode::Eager);
    assert_eq!(EvaluationMode::Eager.toggled().toggled(), EvaluationMode::Eager);
    assert_eq!(EvaluationMode::Eager.label(), "短路关闭 · 全部求值");
    assert_eq!(EvaluationMode::default_mode(), EvaluationMode::ShortCircuit);
    for language in [Language::Python, Language::Logic] {
        assert_eq!(Language::from_key(language.key()), Some(language));
    }
    assert_eq!(Language::from_key("ruby"), None);
    assert_eq!(Language::Python.default_mode(), EvaluationMode::ShortCircuit);
    assert_eq!(Language::Logic.default_mode(), EvaluationMode::Eager);
    assert_eq!(Language::Logic.label(), "命题逻辑");
}

#[test]
fn attempts_are_the_same_only_with_the_same_node_and_answer() {
    let a = RecordedAttempt { node_id: 1, input: Some("3".into()) };
    assert!(a.same_as(&RecordedAttempt { node_id: 1, input: Some("3".into()) }));
    assert!(!a.same_as(&RecordedAttempt { node_id: 2, input: Some("3".into()) }));
    assert!(!a.same_as(&RecordedAttempt { node_id: 1, input: None }));
}
