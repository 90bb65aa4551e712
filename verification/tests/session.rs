use stepwise::session::{
    adjacent, owners, Drawn, evaluation_key, highest_ranked, hint, judge_error, judge_value, padded, replaced_nodes,
    shift_spans, substitution_note, verdict, Answer, Occurrence, Selection, Span, Verdict,
};
use stepwise::teaching::{EvalError, EvaluationMode, FeedbackKind};

fn selection() -> Selection {
    Selection {
        finished: false,
        found: true,
        allowed: false,
        next: false,
        skipped: false,
        value: false,
        inner: None,
        explanation: String::from("先算乘法。"),
        expected: String::from("3 * 4"),
    }
}

#[test]
fn a_raised_error_is_answered_by_its_name_with_white_space_ignored() {
    let error: EvalError = EvalError::Raised { name: "ZeroDivisionError", reason: "division by zero".into() };
    let right = judge_error(&error, "除数为零。", "  ZeroDivisionError \n");
    assert_eq!(right.kind, FeedbackKind::Correct);
    assert_eq!(right.message, "正确。除数为零。 求值在这里终止。");
    let wrong = judge_error(&error, "除数为零。", "0");
    assert_eq!(wrong.kind, FeedbackKind::WrongValue);
    assert_eq!(wrong.message, "这一步不会产生普通值。除数为零。 请填写异常名称。");
}

#[test]
fn a_limit_is_never_counted_against_the_student() {
    let error: EvalError = EvalError::Limit("指数过大。".into());
    let feedback = judge_error(&error, "ignored", "anything");
    assert_eq!(feedback.kind, FeedbackKind::Unsupported);
    assert_eq!(feedback.message, "超出首版支持范围：指数过大。 这不是 Python 求值结果，也不计作答错。");
}

#[test]
fn the_type_of_an_answer_is_checked_before_its_value() {
    let wrong_type = judge_value("int", "整数相加。", &Answer::Read { kind: "float".into(), same: true });
    assert_eq!(wrong_type.kind, FeedbackKind::WrongType);
    assert_eq!(wrong_type.message, "这里应返回 int，你填写的是 float。值相等也不代表类型相同。整数相加。");
    let right = judge_value("int", "整数相加。", &Answer::Read { kind: "int".into(), same: true });
    assert_eq!(right.kind, FeedbackKind::Correct);
    assert_eq!(right.message, "正确。整数相加。");
    let wrong = judge_value("int", "整数相加。", &Answer::Read { kind: "int".into(), same: false });
    assert_eq!(wrong.kind, FeedbackKind::WrongValue);
    assert_eq!(wrong.message, "选对了位置，但结果不正确。整数相加。 请再算一次。");
    let unreadable = judge_value("int", "整数相加。", &Answer::Unreadable("无法识别。".into()));
    assert_eq!(unreadable.kind, FeedbackKind::InvalidInput);
    assert_eq!(unreadable.message, "无法识别。");
}

#[test]
fn a_click_is_judged_by_the_rules_in_their_order() {
    let mut finished = selection();
    finished.finished = true;
    finished.allowed = true;
    match verdict(&finished) {
        Verdict::Refused(feedback) => {
            assert_eq!(feedback.kind, FeedbackKind::Finished);
            assert_eq!(feedback.message, "本题已结束；最终值或异常只是本次求值的完成标志。");
        }
        _ => panic!("a finished expression takes no step"),
    }
    let mut missing = selection();
    missing.found = false;
    match verdict(&missing) {
        Verdict::Refused(feedback) => assert_eq!(feedback.message, "这个节点已不存在，请重新选择。"),
        _ => panic!("a node that left the tree is no step"),
    }
    let mut allowed = selection();
    allowed.allowed = true;
    allowed.next = true;
    assert!(matches!(verdict(&allowed), Verdict::Allowed));
    let mut next = selection();
    next.next = true;
    next.value = true;
    assert!(matches!(verdict(&next), Verdict::Next));
    let mut skipped = selection();
    skipped.skipped = true;
    skipped.value = true;
    match verdict(&skipped) {
        Verdict::Refused(feedback) => {
            assert_eq!(feedback.kind, FeedbackKind::Skipped);
            assert_eq!(feedback.message, "这棵子树会被跳过。先算乘法。 请选择整个 3 * 4 表达式。");
        }
        _ => panic!("a skipped subtree is no step"),
    }
    let mut value = selection();
    value.value = true;
    match verdict(&value) {
        Verdict::Refused(feedback) => assert_eq!(feedback.kind, FeedbackKind::AlreadyValue),
        _ => panic!("a value is no step"),
    }
    let mut inner = selection();
    inner.inner = Some("1 + 1".into());
    match verdict(&inner) {
        Verdict::Refused(feedback) => {
            assert_eq!(feedback.kind, FeedbackKind::NeedsInner);
            assert_eq!(feedback.message, "这一步不能跳过内部运算。请先计算 1 + 1，再回到当前表达式。");
        }
        _ => panic!("an inner step comes first"),
    }
    match verdict(&selection()) {
        Verdict::Refused(feedback) => {
            assert_eq!(feedback.kind, FeedbackKind::OutOfOrder);
            assert_eq!(
                feedback.message,
                "这里目前还不能计算，请先处理 3 * 4。同优先级且不受短路限制的独立子式可以任选。"
            );
        }
        _ => panic!("a waiting node is no step"),
    }
}

#[test]
fn spans_after_a_cut_move_and_spans_of_removed_nodes_go() {
    // "2 + (3 * 4)": the product at 5..10 becomes "12".
    let spans: Vec<Span> = vec![
        Span { node: 0, start: 0, end: 11 },
        Span { node: 1, start: 0, end: 1 },
        Span { node: 2, start: 4, end: 11 },
        Span { node: 3, start: 5, end: 10 },
        Span { node: 4, start: 5, end: 6 },
    ];
    let kept: Vec<bool> = vec![true, true, true, true, false];
    let shifted: Vec<Span> = shift_spans(&spans, &kept, 5, 10, 2);
    assert_eq!(
        shifted,
        vec![
            Span { node: 0, start: 0, end: 8 },
            Span { node: 1, start: 0, end: 1 },
            Span { node: 2, start: 4, end: 8 },
            Span { node: 3, start: 5, end: 7 },
        ]
    );
    let after: Vec<Span> = shift_spans(&vec![Span { node: 7, start: 12, end: 15 }], &vec![true], 5, 10, 2);
    assert_eq!(after, vec![Span { node: 7, start: 9, end: 12 }]);
}

#[test]
fn a_replacement_never_runs_into_a_neighbouring_word() {
    assert_eq!(padded("True", Some('t'), Some('a')), " True ");
    assert_eq!(padded("True", Some(' '), Some(')')), "True");
    assert_eq!(padded("-1", Some('x'), Some('y')), "-1 ");
    assert_eq!(padded("12", None, None), "12");
}

#[test]
fn only_the_highest_ready_precedence_may_be_taken() {
    assert_eq!(highest_ranked(&vec![3, 5, 5, 1]), vec![false, true, true, false]);
    assert_eq!(highest_ranked(&vec![2]), vec![true]);
    assert_eq!(highest_ranked(&vec![]), Vec::<bool>::new());
}

#[test]
fn one_answer_for_a_bound_name_replaces_every_occurrence() {
    let rows: Vec<Occurrence> = vec![
        Occurrence { node: 0, binding: None },
        Occurrence { node: 1, binding: Some("x".into()) },
        Occurrence { node: 2, binding: Some("y".into()) },
        Occurrence { node: 3, binding: Some("x".into()) },
    ];
    assert_eq!(replaced_nodes(1, Some("x"), &rows), vec![1, 3]);
    assert_eq!(replaced_nodes(0, None, &rows), vec![0]);
    assert_eq!(substitution_note(2), Some(" 已将所有 2 处同名变量一起代入。".to_string()));
    assert_eq!(substitution_note(1), None);
}

#[test]
fn a_hint_names_the_expression_and_a_key_names_the_rules() {
    assert_eq!(hint("3 * 4"), "下一步选择：3 * 4。先判断应用哪条规则，再填写值或异常名。");
    assert_eq!(
        evaluation_key(EvaluationMode::Eager, "python\n{}\n1 + 2"),
        "flexible-substitution-v3\neager\npython\n{}\n1 + 2"
    );
}

#[test]
fn the_selection_moves_one_node_and_stays_at_either_end() {
    let ids: Vec<usize> = vec![4, 7, 9];
    assert_eq!(adjacent(&ids, 7, true), 9);
    assert_eq!(adjacent(&ids, 9, true), 9);
    assert_eq!(adjacent(&ids, 7, false), 4);
    assert_eq!(adjacent(&ids, 4, false), 4);
    assert_eq!(adjacent(&ids, 100, true), 7);
    assert_eq!(adjacent(&ids, 100, false), 4);
}

#[test]
fn each_byte_belongs_to_the_deepest_unfinished_node_over_it() {
    // "2 + (3 * 4)": the sum covers all, the bracket 4..11, the product 5..10.
    let drawn: Vec<Drawn> = vec![
        Drawn { node: 0, depth: 0, start: 0, end: 11 },
        Drawn { node: 2, depth: 1, start: 4, end: 11 },
        Drawn { node: 3, depth: 2, start: 5, end: 10 },
        Drawn { node: 5, depth: 2, start: 9, end: 10 },
    ];
    let owned: Vec<Option<usize>> = owners(12, &drawn);
    assert_eq!(owned[0], Some(0));
    assert_eq!(owned[4], Some(2));
    assert_eq!(owned[5], Some(3));
    assert_eq!(owned[9], Some(5));
    assert_eq!(owned[10], Some(2));
    assert_eq!(owned[11], None);
    assert_eq!(owned.len(), 12);
}

#[test]
fn the_blank_opens_on_a_last_pair_and_a_sign_over_a_number_finishes() {
    assert!(stepwise::session::final_pair(Some(2), false, true));
    assert!(!stepwise::session::final_pair(Some(2), false, false));
    assert!(!stepwise::session::final_pair(Some(3), false, true));
    assert!(!stepwise::session::final_pair(None, false, true));
    assert!(!stepwise::session::final_pair(Some(2), true, true));
    assert!(stepwise::session::sign_completes(true, Some("4")));
    assert!(!stepwise::session::sign_completes(true, Some("-0.0")));
    assert!(!stepwise::session::sign_completes(false, Some("4")));
    assert!(!stepwise::session::sign_completes(true, None));
    assert!(stepwise::session::bracketed(true, false, Some("-2")));
    assert!(!stepwise::session::bracketed(true, false, Some("2")));
    assert!(stepwise::session::bracketed(true, false, None));
    assert!(!stepwise::session::bracketed(true, true, None));
    assert!(!stepwise::session::bracketed(false, false, Some("-2")));
}

#[test]
fn some_ready_operation_may_always_be_taken() {
    for ranks in [vec![1u8], vec![3, 3], vec![0, 9, 4], vec![7, 2, 7, 1]] {
        assert!(highest_ranked(&ranks).contains(&true));
    }
}
