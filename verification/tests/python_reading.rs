use stepwise::python::reading::{
    answer, AnswerReading, AnswerShape,
    binary, bracket_pairs, compare, constant, groups_fit, other_kind, room_for_group, room_for_node,
    source_fits, unary, unbound, unused, Bracketing, GrammarBinary, GrammarCompare, GrammarConstant,
    GrammarUnary, Pair,
};
use stepwise::python::{BinaryOp, CompareOp, UnaryOp};

#[test]
fn only_the_arithmetic_operators_are_taught() {
    assert!(matches!(binary(GrammarBinary::FloorDiv), Ok(BinaryOp::FloorDivide)));
    assert!(matches!(binary(GrammarBinary::Pow), Ok(BinaryOp::Power)));
    assert_eq!(binary(GrammarBinary::BitAnd).unwrap_err().message(), "首版支持 +、-、*、/、//、%、**，暂不支持其他运算符。");
    assert!(matches!(unary(GrammarUnary::USub), Ok(UnaryOp::Negative)));
    assert_eq!(unary(GrammarUnary::Invert).unwrap_err().message(), "暂不支持按位运算。");
}

#[test]
fn a_comparison_is_taught_alone_and_without_is_or_in() {
    assert!(matches!(compare(&vec![GrammarCompare::LtE]), Ok(CompareOp::LessEqual)));
    assert_eq!(
        compare(&vec![GrammarCompare::Lt, GrammarCompare::Lt]).unwrap_err().message(),
        "首版暂不支持链式比较（如 1 < 2 < 3）；请使用单个比较。"
    );
    assert_eq!(compare(&vec![GrammarCompare::In]).unwrap_err().message(), "暂不支持 is、in 或其否定形式。");
}

#[test]
fn constants_names_and_limits_say_why_they_are_refused() {
    assert!(constant(GrammarConstant::Float).is_ok());
    assert_eq!(
        constant(GrammarConstant::Other).unwrap_err().message(),
        "首版仅支持整数、有限浮点数、True、False 和 None；暂不支持字符串、复数或容器。"
    );
    assert_eq!(other_kind().message(), "首版仅支持纯表达式；函数调用、赋值、条件表达式和容器暂不支持。");
    assert!(room_for_node(32, 127).is_ok());
    assert_eq!(room_for_node(33, 0).unwrap_err().message(), "首版最多支持 128 个节点、32 层表达式。");
    assert!(room_for_node(0, 128).is_err());
    assert_eq!(unbound("x").message(), "未给变量 x 赋值；使用 --assign x=3。");
    assert_eq!(unused("y").message(), "表达式中没有变量 y。");
    assert!(room_for_group(127).is_ok());
    assert_eq!(room_for_group(128).unwrap_err().message(), "包含括号的表达式最多 128 个节点。");
    assert!(groups_fit(32).is_ok());
    assert_eq!(groups_fit(33).unwrap_err().message(), "包含括号的表达式最多嵌套 32 层。");
}

#[test]
fn a_source_is_short_and_shallow_enough_or_says_which_it_is_not() {
    assert!(source_fits("(1 + 2) * [3]", 13).is_ok());
    assert_eq!(source_fits("1", 2049).unwrap_err().message(), "表达式最多 2048 字节。");
    let deep: String = format!("{}1{}", "(".repeat(33), ")".repeat(33));
    assert_eq!(source_fits(&deep, deep.len()).unwrap_err().message(), "括号最多嵌套 32 层。");
    let fine: String = format!("{}1{}", "(".repeat(32), ")".repeat(32));
    assert!(source_fits(&fine, fine.len()).is_ok());
    // A closing bracket never takes the count below zero.
    assert!(source_fits(&format!("){}", "(".repeat(32)), 33).is_ok());
}

fn token(opens: bool, closes: bool, start: usize, end: usize) -> Bracketing {
    Bracketing { opens, closes, start, end }
}

#[test]
fn brackets_pair_up_innermost_first() {
    // "(1 + (2))": ( 1 + ( 2 ) )
    let tokens: Vec<Bracketing> = vec![
        token(true, false, 0, 1),
        token(false, false, 1, 2),
        token(false, false, 3, 4),
        token(true, false, 5, 6),
        token(false, false, 6, 7),
        token(false, true, 7, 8),
        token(false, true, 8, 9),
    ];
    assert_eq!(
        bracket_pairs(&tokens),
        Some(vec![
            Pair { inner_start: 6, inner_end: 7, outer_start: 5, outer_end: 8 },
            Pair { inner_start: 1, inner_end: 8, outer_start: 0, outer_end: 9 },
        ])
    );
    assert_eq!(bracket_pairs(&vec![token(false, true, 0, 1)]), None);
}

#[test]
fn an_answer_is_a_literal_or_a_signed_number_never_an_expression() {
    assert_eq!(answer(AnswerShape::Literal).unwrap(), AnswerReading::AsWritten);
    assert_eq!(answer(AnswerShape::Signed { number: true }).unwrap(), AnswerReading::Signed);
    assert_eq!(
        answer(AnswerShape::Signed { number: false }).unwrap_err().message(),
        "请输入一个值，不要填写待计算的表达式。"
    );
    assert_eq!(
        answer(AnswerShape::Expression).unwrap_err().message(),
        "请输入一个值（例如 -3、2.0、False），不要填写待计算的表达式。"
    );
}
