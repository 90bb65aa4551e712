use rand::{Rng, SeedableRng};
use rand_chacha::ChaCha8Rng;
use stepwise::exercises::Exercise;
use stepwise::generate::{random_name, restore};
use stepwise::teaching::{Language, ParseError};
use stepwise::logic::generate::{bindings as logic_bindings, sample as logic_sample};
use stepwise::python::generate::{bindings as python_bindings, sample as python_sample};

/// Every draw the seed makes, attempt after attempt, as the generator takes them.
fn attempts(python: bool, seed: u64) -> Vec<(String, Vec<(String, String)>)> {
    let mut rng = ChaCha8Rng::seed_from_u64(seed);
    let mut drawn = Vec::new();
    for _ in 0..128 {
        let count: u32 = rng.gen_range(5..=8);
        if python {
            let mut values: Vec<Option<i32>> = vec![None; 3];
            let question = python_sample(&mut rng, &mut values, count);
            drawn.push((question.text, python_bindings(&values)));
        } else {
            let mut literals: Vec<Option<bool>> = vec![None; 4];
            let question = logic_sample(&mut rng, &mut literals, count);
            drawn.push((question.text, logic_bindings(&literals)));
        }
    }
    drawn
}

fn pairs(list: &[(&str, &str)]) -> Vec<(String, String)> {
    list.iter().map(|(n, v)| (n.to_string(), v.to_string())).collect()
}

#[test]
fn seed_42_still_draws_the_versioned_python_question() {
    let drawn = attempts(true, 42);
    let wanted = (
        "(z - 6 - y) % 2 >= 4 - x or not (-(z - x)) // 4 == 9 / 2".to_string(),
        pairs(&[("x", "7"), ("y", "-4"), ("z", "3")]),
    );
    assert!(drawn.contains(&wanted), "{:?}", &drawn[..4]);
}

#[test]
fn seed_42_still_draws_the_versioned_logic_question() {
    let drawn = attempts(false, 42);
    let wanted = (
        "(S ∨ ((R → Q) ∨ P)) ∧ (Q ∧ S) ∨ Q ∧ (S → S)".to_string(),
        pairs(&[("P", "True"), ("Q", "False"), ("R", "True"), ("S", "False")]),
    );
    assert!(drawn.contains(&wanted), "{:?}", &drawn[..4]);
}

/// The first draw a seed makes, as a question named by that seed.
fn first_draw(language: Language, seed: u64) -> Result<Exercise, ParseError> {
    let mut rng = ChaCha8Rng::seed_from_u64(seed);
    let count: u32 = rng.gen_range(5..=8);
    let (expression, bindings) = match language {
        Language::Python => {
            let mut values: Vec<Option<i32>> = vec![None; 3];
            let question = python_sample(&mut rng, &mut values, count);
            (question.text, python_bindings(&values))
        }
        Language::Logic => {
            let mut literals: Vec<Option<bool>> = vec![None; 4];
            let question = logic_sample(&mut rng, &mut literals, count);
            (question.text, logic_bindings(&literals))
        }
    };
    Ok(Exercise {
        set: String::new(),
        name: random_name(language, seed),
        title: "随机练习".into(),
        language,
        expression,
        note: None,
        bindings,
        evaluation: None,
    })
}

#[test]
fn a_drawn_question_restores_from_its_name() {
    for language in [Language::Python, Language::Logic] {
        for seed in [0u64, 9, 42, 18446744073709551615] {
            let drawn = first_draw(language, seed).unwrap();
            let restored = restore(&drawn.name, first_draw).unwrap().unwrap();
            assert_eq!(restored.expression, drawn.expression);
            assert_eq!(restored.bindings, drawn.bindings);
            assert_eq!(restored.language, language);
        }
    }
    assert!(restore("precedence", first_draw).unwrap().is_none());
    for broken in ["random-v0-python-42", "random-v1-unknown-1", "random-v1-python-bad"] {
        assert!(restore(broken, first_draw).is_err(), "{broken}");
    }
}
