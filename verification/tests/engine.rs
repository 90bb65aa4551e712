use rand::{Rng, SeedableRng};
use rand_chacha::ChaCha8Rng;
use stepwise::logic::deduction::Proof;
use stepwise::logic::generate::{bindings, sample};
use stepwise::logic::parse::parse_formula;
use stepwise::python::generate::{bindings as python_bindings, sample as python_sample, signed_text};
use stepwise::session::{available_steps, next_step, Decision, Shape, ShapeKind};

fn value(id: usize) -> Shape {
    Shape { id, kind: ShapeKind::Value }
}

fn binding(id: usize) -> Shape {
    Shape { id, kind: ShapeKind::Binding }
}

fn group(id: usize, inside: Shape) -> Shape {
    Shape { id, kind: ShapeKind::Group(Box::new(inside)) }
}

fn operation(id: usize, precedence: u8, skips: bool, decision: Decision, operands: Vec<Shape>) -> Shape {
    Shape { id, kind: ShapeKind::Operation { precedence, skips, decision, operands } }
}

#[test]
fn the_next_step_follows_the_operators_decisions() {
    // 1 + 2 * 3: the sum waits for its right operand, where the product applies.
    let tree = operation(
        0,
        50,
        false,
        Decision::Operand(1),
        vec![value(1), operation(2, 60, false, Decision::Apply, vec![value(3), value(4)])],
    );
    assert_eq!(next_step(&tree), Some(2));
    assert_eq!(available_steps(&tree), vec![2]);
    assert_eq!(next_step(&value(7)), None);
    assert!(available_steps(&value(7)).is_empty());
}

#[test]
fn products_of_equal_rank_are_offered_in_either_order() {
    // 1 * 2 + 3 * 4: both products are ready at the same rank, the sum is not.
    let tree = operation(
        0,
        50,
        false,
        Decision::Operand(0),
        vec![
            operation(1, 60, false, Decision::Apply, vec![value(2), value(3)]),
            operation(4, 60, false, Decision::Apply, vec![value(5), value(6)]),
        ],
    );
    assert_eq!(next_step(&tree), Some(1));
    assert_eq!(available_steps(&tree), vec![1, 4]);
}

#[test]
fn only_the_highest_ready_rank_is_offered() {
    // 1 * 2 + 3 - 4 where the product outranks the subtraction that is also ready.
    let tree = operation(
        0,
        50,
        false,
        Decision::Operand(0),
        vec![
            operation(1, 60, false, Decision::Apply, vec![value(2), value(3)]),
            operation(4, 50, false, Decision::Apply, vec![value(5), value(6)]),
        ],
    );
    assert_eq!(available_steps(&tree), vec![1]);
}

#[test]
fn brackets_rank_their_inside_on_its_own() {
    // (1 + 2) * (3 * 4): each pair of brackets offers its own step, whatever the ranks.
    let tree = operation(
        0,
        60,
        false,
        Decision::Operand(0),
        vec![
            group(1, operation(2, 50, false, Decision::Apply, vec![value(3), value(4)])),
            group(5, operation(6, 60, false, Decision::Apply, vec![value(7), value(8)])),
        ],
    );
    assert_eq!(available_steps(&tree), vec![2, 6]);
    // A pair of brackets around a value comes off as a step of its own.
    let done = operation(0, 60, false, Decision::Operand(0), vec![group(1, value(2)), value(3)]);
    assert_eq!(next_step(&done), Some(1));
    assert_eq!(available_steps(&done), vec![1]);
}

#[test]
fn a_skipping_operation_looks_only_at_its_first_unfinished_operand() {
    // (1 < 2) and (3 < 4): the right comparison waits while the left decides.
    let tree = operation(
        0,
        20,
        true,
        Decision::Operand(0),
        vec![
            operation(1, 40, false, Decision::Apply, vec![value(2), value(3)]),
            operation(4, 40, false, Decision::Apply, vec![value(5), value(6)]),
        ],
    );
    assert_eq!(available_steps(&tree), vec![1]);
    // Without skipping both comparisons are ready.
    let eager = operation(
        0,
        20,
        false,
        Decision::Operand(0),
        vec![
            operation(1, 40, false, Decision::Apply, vec![value(2), value(3)]),
            operation(4, 40, false, Decision::Apply, vec![value(5), value(6)]),
        ],
    );
    assert_eq!(available_steps(&eager), vec![1, 4]);
}

#[test]
fn bound_names_are_offered_before_anything_else() {
    // x + y * 2: both names may be substituted; nothing else is ready.
    let tree = operation(
        0,
        50,
        false,
        Decision::Operand(0),
        vec![binding(1), operation(2, 60, false, Decision::Operand(0), vec![binding(3), value(4)])],
    );
    assert_eq!(next_step(&tree), Some(1));
    assert_eq!(available_steps(&tree), vec![1, 3]);
}

#[test]
fn a_duplicated_proof_is_the_same_proof() {
    let mut proof = Proof::new(
        vec![parse_formula("P -> Q").unwrap(), parse_formula("P").unwrap()],
        parse_formula("Q").unwrap(),
    );
    proof.submit("Q ; mp ; 1,2").unwrap();
    let copy = proof.duplicate();
    assert_eq!(copy.lines().len(), proof.lines().len());
    assert_eq!(copy.commands(), proof.commands());
    assert!(copy.goal().equals(proof.goal()));
    for (a, b) in copy.lines().iter().zip(proof.lines()) {
        assert!(a.formula.equals(&b.formula));
        assert_eq!(a.rule, b.rule);
        assert_eq!(a.references, b.references);
    }
}

#[test]
fn ratio_and_closed_range_draws_match_the_draws_they_stand_for() {
    for seed in 0..20u64 {
        let mut by_probability = ChaCha8Rng::seed_from_u64(seed);
        let mut by_ratio = ChaCha8Rng::seed_from_u64(seed);
        for _ in 0..200 {
            assert_eq!(by_probability.gen_bool(0.2), by_ratio.gen_ratio(1, 5));
            assert_eq!(by_probability.gen_bool(0.15), by_ratio.gen_ratio(3, 20));
            assert_eq!(by_probability.gen_bool(0.5), by_ratio.gen_ratio(1, 2));
            assert_eq!(by_probability.gen_range(0..7u32), by_ratio.gen_range(0..=6u32));
        }
    }
}

#[test]
fn generated_formulas_parse_and_bind_every_letter() {
    for seed in 0..30u64 {
        let mut rng = ChaCha8Rng::seed_from_u64(seed);
        let mut literals: Vec<Option<bool>> = vec![None; 4];
        let count: u32 = 5 + (seed % 4) as u32;
        let formula = sample(&mut rng, &mut literals, count);
        assert!(parse_formula(&formula.text).is_ok(), "{}", formula.text);
        let bound = bindings(&literals);
        assert!(!bound.is_empty());
        for window in bound.windows(2) {
            assert!(window[0].0 < window[1].0);
        }
        for (name, literal) in &bound {
            assert!(["P", "Q", "R", "S"].contains(&name.as_str()));
            assert!(literal == "True" || literal == "False");
        }
        for letter in ["P", "Q", "R", "S"] {
            if formula.text.contains(letter) {
                assert!(bound.iter().any(|(name, _)| name == letter), "{}", formula.text);
            }
        }
        let connectives = formula.text.chars().filter(|c| "¬∧∨→↔".contains(*c)).count();
        assert_eq!(connectives as u32, count, "{}", formula.text);
    }
}

#[test]
fn the_same_seed_spells_the_same_formula() {
    let mut first = ChaCha8Rng::seed_from_u64(42);
    let mut second = ChaCha8Rng::seed_from_u64(42);
    let mut a: Vec<Option<bool>> = vec![None; 4];
    let mut b: Vec<Option<bool>> = vec![None; 4];
    assert_eq!(sample(&mut first, &mut a, 6).text, sample(&mut second, &mut b, 6).text);
    assert_eq!(a, b);
}

#[test]
fn generated_python_questions_bind_every_name_once() {
    for seed in 0..30u64 {
        let mut rng = ChaCha8Rng::seed_from_u64(seed);
        let mut values: Vec<Option<i32>> = vec![None; 3];
        let question = python_sample(&mut rng, &mut values, 6);
        let bound = python_bindings(&values);
        for window in bound.windows(2) {
            assert!(window[0].0 < window[1].0);
        }
        for (name, literal) in &bound {
            assert!(["x", "y", "z"].contains(&name.as_str()));
            let value: i32 = literal.parse().unwrap();
            assert!((-5..=9).contains(&value), "{literal}");
        }
        for name in ["x", "y", "z"] {
            if question.text.contains(name) {
                assert!(bound.iter().any(|(bound_name, _)| bound_name == name), "{}", question.text);
            }
        }
    }
}

#[test]
fn numbers_are_written_as_python_writes_them() {
    assert_eq!(signed_text(-5), "-5");
    assert_eq!(signed_text(0), "0");
    assert_eq!(signed_text(9), "9");
    assert_eq!(signed_text(i32::MIN), i32::MIN.to_string());
    assert_eq!(signed_text(i32::MAX), i32::MAX.to_string());
}
