use stepwise::exercises::Exercise;
use stepwise::generate::{random_name, restore, restore_name, Fragment, PREFIX};
use stepwise::teaching::{Language, ParseError};

#[test]
fn a_random_name_reads_back_as_its_language_and_seed() {
    for language in [Language::Python, Language::Logic] {
        for seed in [0u64, 7, 1234567890123, u64::MAX] {
            let name = random_name(language, seed);
            assert!(name.starts_with(PREFIX));
            assert_eq!(restore_name(&name).unwrap(), Some((language, seed)));
        }
    }
    assert_eq!(random_name(Language::Logic, 42), "random-v1-logic-42");
}

#[test]
fn names_that_are_not_random_restore_nothing_and_broken_ones_say_why() {
    assert_eq!(restore_name("precedence").unwrap(), None);
    assert_eq!(restore_name("").unwrap(), None);
    let message = |name: &str| restore_name(name).unwrap_err().message();
    assert_eq!(message("random-v0-python-1"), "无法恢复这个版本的随机题。请用 --random 开始新题，原进度保留。");
    assert_eq!(message("random-v1-python"), "随机题编号缺少种子。");
    assert_eq!(message("random-v1-ruby-1"), "随机题语言无效。");
    assert_eq!(message("random-v1-python-x"), "随机题种子无效。");
    assert_eq!(message("random-v1-python-18446744073709551616"), "随机题种子无效。");
    assert_eq!(restore_name("random-v1-python-+5").unwrap(), Some((Language::Python, 5)));
}

#[test]
fn restoring_draws_the_question_again_from_its_seed() {
    let drawn = restore("random-v1-logic-9", |language, seed| {
        Ok(Exercise {
            set: String::new(),
            name: random_name(language, seed),
            title: "随机练习".into(),
            language,
            expression: "P".into(),
            note: None,
            bindings: vec![("P".into(), "True".into())],
            evaluation: None,
        })
    })
    .unwrap()
    .unwrap();
    assert_eq!(drawn.name, "random-v1-logic-9");
    assert_eq!(drawn.language, Language::Logic);
    assert!(restore("precedence", |_, _| panic!("not a random question")).unwrap().is_none());
    let refused = restore("random-v1-logic-9", |_, _| Err(ParseError::from_str("换一个种子。"))).unwrap_err();
    assert_eq!(refused.message(), "换一个种子。");
}

#[test]
fn fragments_bracket_only_what_binds_too_loosely() {
    let x = || Fragment::atom("x".into());
    let sum = x().binary("+", 50, x(), false);
    assert_eq!(sum.text, "x + x");
    assert_eq!(sum.precedence, 50);
    let product = sum.binary("*", 60, x(), false);
    assert_eq!(product.text, "(x + x) * x");
    // Left-associative: the same precedence on the right needs brackets, on the left not.
    let left = x().binary("-", 50, x(), false).binary("-", 50, x(), false);
    assert_eq!(left.text, "x - x - x");
    let right = x().binary("-", 50, x().binary("-", 50, x(), false), false);
    assert_eq!(right.text, "x - (x - x)");
    // Right-associative power brackets a power on its left.
    let power = x().binary("**", 80, x(), true).binary("**", 80, x(), true);
    assert_eq!(power.text, "(x ** x) ** x");
    let negated = x().binary("+", 50, x(), false).unary("-", 70);
    assert_eq!(negated.text, "-(x + x)");
    assert_eq!(x().grouped().text, "(x)");
}
