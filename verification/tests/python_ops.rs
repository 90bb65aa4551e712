use stepwise::python::{
    binding_explanation, bool_explanation, compare_outcome, integer_limit, power_limit, power_plan, BinaryOp, BoolOp, BoolStep, CompareOp, Op,
    Order, PowerPlan, UnaryOp,
};
use stepwise::teaching::{EvalError, EvaluationMode};

#[test]
fn operators_spell_python_symbols() {
    assert_eq!(UnaryOp::Negative.symbol(), "-");
    assert_eq!(UnaryOp::Not.symbol(), "not ");
    assert_eq!(BinaryOp::FloorDivide.symbol(), "//");
    assert_eq!(BinaryOp::Power.symbol(), "**");
    assert_eq!(CompareOp::NotEqual.symbol(), "!=");
    assert_eq!(BoolOp::And.symbol(), "and");
    assert_eq!(BoolOp::Or.symbol(), "or");
}

#[test]
fn power_binds_tighter_than_a_sign_and_booleans_bind_loosest() {
    assert!(Op::Binary(BinaryOp::Power).precedence() > Op::Unary(UnaryOp::Negative).precedence());
    assert!(Op::Unary(UnaryOp::Negative).precedence() > Op::Binary(BinaryOp::Multiply).precedence());
    assert!(Op::Bool(BoolOp::And).precedence() > Op::Bool(BoolOp::Or).precedence());
    assert!(Op::Bool(BoolOp::Or).skips_operands(EvaluationMode::ShortCircuit));
    assert!(!Op::Bool(BoolOp::Or).skips_operands(EvaluationMode::Eager));
    assert!(Op::Binary(BinaryOp::Power).negative_brackets(0).is_some());
    assert!(Op::Binary(BinaryOp::Power).negative_brackets(1).is_none());
}

#[test]
fn short_circuit_returns_the_first_deciding_operand_and_skips_the_rest() {
    match BoolOp::And.decide(&[Some(true), Some(false), None], EvaluationMode::ShortCircuit) {
        BoolStep::Apply { chosen, skipped } => {
            assert_eq!(chosen, 1);
            assert_eq!(skipped, [2]);
        }
        BoolStep::Operand(_) => panic!("the second operand decides"),
    }
    match BoolOp::Or.decide(&[Some(false), None, Some(true)], EvaluationMode::ShortCircuit) {
        BoolStep::Operand(index) => assert_eq!(index, 1),
        BoolStep::Apply { .. } => panic!("the second operand is not yet a value"),
    }
    match BoolOp::Or.decide(&[Some(false), Some(false)], EvaluationMode::ShortCircuit) {
        BoolStep::Apply { chosen, skipped } => {
            assert_eq!(chosen, 1);
            assert!(skipped.is_empty());
        }
        BoolStep::Operand(_) => panic!("both operands are values"),
    }
}

#[test]
fn with_short_circuit_off_every_operand_is_evaluated_first() {
    match BoolOp::And.decide(&[Some(false), None], EvaluationMode::Eager) {
        BoolStep::Operand(index) => assert_eq!(index, 1),
        BoolStep::Apply { .. } => panic!("the second operand is still owed"),
    }
    match BoolOp::And.decide(&[Some(true), Some(false), Some(false)], EvaluationMode::Eager) {
        BoolStep::Apply { chosen, skipped } => {
            assert_eq!(chosen, 1);
            assert!(skipped.is_empty());
        }
        BoolStep::Operand(_) => panic!("every operand is a value"),
    }
    // Both strategies return the same operand once every operand is a value.
    for ops in [[Some(true), Some(true)], [Some(false), Some(true)], [Some(true), Some(false)]] {
        for op in [BoolOp::And, BoolOp::Or] {
            let eager = match op.decide(&ops, EvaluationMode::Eager) {
                BoolStep::Apply { chosen, .. } => chosen,
                BoolStep::Operand(_) => unreachable!(),
            };
            let short = match op.decide(&ops, EvaluationMode::ShortCircuit) {
                BoolStep::Apply { chosen, .. } => chosen,
                BoolStep::Operand(_) => unreachable!(),
            };
            assert_eq!(eager, short);
        }
    }
}

#[test]
fn python_errors_name_their_exception() {
    let error = stepwise::python::zero_division();
    assert_eq!(error.name(), Some("ZeroDivisionError"));
    assert_eq!(
        error.message(),
        "ZeroDivisionError: 除数为零；Python 会在这一步停止，不会得到一个数值。"
    );
    let error = stepwise::python::type_error("不能相加");
    assert_eq!(error.message(), "TypeError: 不能相加");
}

#[test]
fn equality_answers_for_none_and_ordering_refuses_it() {
    assert!(matches!(compare_outcome(CompareOp::Equal, Some(Order::Equal), true), Ok(true)));
    assert!(matches!(compare_outcome(CompareOp::NotEqual, None, true), Ok(true)));
    match compare_outcome(CompareOp::Less, None, true) {
        Err(EvalError::Raised { name, reason }) => {
            assert_eq!(name, "TypeError");
            assert_eq!(reason, "None 不支持大小比较。");
        }
        other => panic!("ordering None must raise: {other:?}"),
    }
    assert!(matches!(compare_outcome(CompareOp::LessEqual, Some(Order::Equal), false), Ok(true)));
    assert!(matches!(compare_outcome(CompareOp::Greater, Some(Order::Equal), false), Ok(false)));
    assert!(matches!(compare_outcome(CompareOp::GreaterEqual, Some(Order::Greater), false), Ok(true)));
}

#[test]
fn an_integer_power_is_planned_before_it_is_multiplied() {
    // 2 ** -1 goes to floating point.
    assert_eq!(power_plan(true, false, true, None, false, false, false, 2), PowerPlan::Float);
    // 0 ** 0 and 0 ** 5.
    assert_eq!(power_plan(false, true, false, Some(0), true, false, false, 0), PowerPlan::One);
    assert_eq!(power_plan(false, false, true, Some(5), true, false, false, 0), PowerPlan::Zero);
    // (-1) ** 3 and (-1) ** 4.
    assert_eq!(power_plan(false, false, true, Some(3), false, true, true, 1), PowerPlan::MinusOne);
    assert_eq!(power_plan(false, false, false, Some(4), false, true, true, 1), PowerPlan::One);
    // 3 ** 10: two bits of base, 10 * 1 < 4096.
    assert_eq!(power_plan(false, false, false, Some(10), false, false, false, 2), PowerPlan::Raise(10));
    // 2 ** 4096 would need 4097 bits.
    assert_eq!(power_plan(false, false, false, Some(4096), false, false, false, 2), PowerPlan::TooWide);
    assert_eq!(power_plan(false, false, false, None, false, false, false, 2), PowerPlan::TooWide);
    match power_limit() {
        EvalError::Limit(reason) => assert_eq!(reason, "乘方结果超过整数位数限制。"),
        other => panic!("a limit, not {other:?}"),
    }
}

#[test]
fn integers_wider_than_the_limit_are_refused() {
    assert!(integer_limit(4096).is_none());
    match integer_limit(4097) {
        Some(EvalError::Limit(reason)) => assert_eq!(reason, "整数最多 4096 位二进制。"),
        other => panic!("a limit, not {other:?}"),
    }
}

#[test]
fn a_boolean_operation_explains_the_operand_it_returns() {
    assert_eq!(
        bool_explanation(BoolOp::And, EvaluationMode::ShortCircuit, "0", "int", false, true),
        "短路求值：and 遇到假值 0，直接返回该操作数（int），跳过后面的子树。"
    );
    assert_eq!(
        bool_explanation(BoolOp::Or, EvaluationMode::ShortCircuit, "3", "int", true, false),
        "or 返回最后求值的操作数 3（int），不会强制转成 bool。"
    );
    assert_eq!(
        bool_explanation(BoolOp::Or, EvaluationMode::Eager, "True", "bool", true, false),
        "短路已关闭：所有操作数均已求值，再按 or 的操作数返回规则得到 True（bool）。这是教学变体，不是 Python 的执行策略。"
    );
    assert_eq!(
        binding_explanation("x", "2.5", "float"),
        "根据本题赋值，将所有同名变量 x 代入为 2.5（float）。"
    );
}
