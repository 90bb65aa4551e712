use stepwise::logic::deduction::Proof;
use stepwise::logic::parse::parse_formula;
use stepwise::progress::{Progress, VERSION};
use stepwise::teaching::{EvaluationMode, RecordedAttempt};

fn attempt(node_id: usize, input: Option<&str>) -> RecordedAttempt {
    RecordedAttempt { node_id, input: input.map(String::from) }
}

#[test]
fn an_empty_snapshot_points_at_nothing() {
    let progress = Progress::default();
    assert_eq!(progress.version(), VERSION);
    assert_eq!(progress.current_set(), "");
    assert_eq!(progress.current(), "");
    assert_eq!(progress.mode(), EvaluationMode::ShortCircuit);
    assert!(progress.sessions().is_empty());
    assert!(progress.proofs().is_empty());
    assert!(progress.attempts("anything").is_empty());
}

#[test]
fn recorded_attempts_read_back_under_their_key_and_nowhere_else() {
    let mut progress = Progress::new();
    progress.record("builtin", "precedence", EvaluationMode::Eager, "key-1", &[attempt(3, Some("7"))]);
    assert!(progress.points_at("builtin", "precedence"));
    assert!(!progress.points_at("other", "precedence"));
    assert!(!progress.points_at("builtin", "other"));
    assert_eq!(progress.mode(), EvaluationMode::Eager);
    let read = progress.attempts("key-1");
    assert_eq!(read.len(), 1);
    assert_eq!(read[0].node_id, 3);
    assert_eq!(read[0].input.as_deref(), Some("7"));
    assert!(progress.attempts("key-2").is_empty());

    // Recording again under the same key replaces the work instead of filing it twice.
    progress.record("builtin", "precedence", EvaluationMode::Eager, "key-1", &[attempt(3, Some("7")), attempt(0, None)]);
    assert_eq!(progress.sessions().len(), 1);
    assert_eq!(progress.attempts("key-1").len(), 2);
    assert!(progress.attempts("key-1")[1].input.is_none());

    // Another key keeps its own work.
    progress.record("", "custom", EvaluationMode::ShortCircuit, "key-2", &[]);
    assert_eq!(progress.sessions().len(), 2);
    assert_eq!(progress.attempts("key-1").len(), 2);
    assert!(progress.points_at("", "custom"));
}

#[test]
fn proof_commands_read_back_for_the_same_premises_and_goal() {
    let mut proof = Proof::new(vec![parse_formula("P -> Q").unwrap(), parse_formula("P").unwrap()], parse_formula("Q").unwrap());
    proof.submit("Q ; mp ; 1,2").unwrap();
    let mut progress = Progress::default();
    progress.record_proof("set", "mp", &proof);
    assert!(progress.points_at("set", "mp"));
    let fresh = Proof::new(vec![parse_formula("P -> Q").unwrap(), parse_formula("P").unwrap()], parse_formula("Q").unwrap());
    assert_eq!(progress.commands(&fresh), ["Q ; mp ; 1,2"]);
    let other = Proof::new(vec![parse_formula("P").unwrap()], parse_formula("Q").unwrap());
    assert!(progress.commands(&other).is_empty());
    // Evaluation work and proof work never mix.
    assert!(progress.attempts(&fresh.progress_key()).is_empty());
    assert_eq!(progress.proofs().len(), 1);
}
