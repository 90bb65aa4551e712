use stepwise::terminal::keys::{evaluation_action, proof_action, Code, EvaluationAction, Key, ProofAction};

fn key(code: Code) -> Key {
    Key { code, control: false, alt: false, release: false }
}

fn control(code: Code) -> Key {
    Key { code, control: true, alt: false, release: false }
}

#[test]
fn the_expression_view_edits_a_draft_and_otherwise_acts_on_the_question() {
    assert_eq!(evaluation_action(key(Code::Char('n')), false), EvaluationAction::NextQuestion);
    assert_eq!(evaluation_action(key(Code::Char('n')), true), EvaluationAction::Type('n'));
    assert_eq!(evaluation_action(key(Code::Enter), false), EvaluationAction::OpenSelected);
    assert_eq!(evaluation_action(key(Code::Enter), true), EvaluationAction::Submit);
    assert_eq!(evaluation_action(control(Code::Char('u')), true), EvaluationAction::ClearInput);
    assert_eq!(evaluation_action(key(Code::Char('u')), false), EvaluationAction::Undo);
    assert_eq!(evaluation_action(control(Code::Char('c')), true), EvaluationAction::Quit);
    assert_eq!(evaluation_action(key(Code::Esc), false), EvaluationAction::Cancel);
    assert_eq!(evaluation_action(key(Code::PageDown), true), EvaluationAction::Scroll { down: true });
    assert_eq!(evaluation_action(key(Code::Up), false), EvaluationAction::SelectPrevious);
    assert_eq!(evaluation_action(key(Code::Char('j')), false), EvaluationAction::SelectNext);
    assert_eq!(evaluation_action(key(Code::Char('?')), false), EvaluationAction::Help);
    assert_eq!(evaluation_action(key(Code::Char('s')), false), EvaluationAction::ToggleMode);
    assert_eq!(evaluation_action(key(Code::Char('x')), false), EvaluationAction::Nothing);
    let released = Key { code: Code::Char('q'), control: false, alt: false, release: true };
    assert_eq!(evaluation_action(released, false), EvaluationAction::Nothing);
}

#[test]
fn the_proof_view_types_every_character_and_moves_with_control() {
    assert_eq!(proof_action(key(Code::Char('n'))), ProofAction::Type('n'));
    assert_eq!(proof_action(control(Code::Char('n'))), ProofAction::NextQuestion);
    assert_eq!(proof_action(control(Code::Char('p'))), ProofAction::PreviousQuestion);
    assert_eq!(proof_action(control(Code::Char('z'))), ProofAction::Undo);
    assert_eq!(proof_action(control(Code::Char('q'))), ProofAction::Quit);
    assert_eq!(proof_action(key(Code::Function(1))), ProofAction::Rules);
    assert_eq!(proof_action(key(Code::Esc)), ProofAction::ClearInput);
    assert_eq!(proof_action(key(Code::PageUp)), ProofAction::ScrollUp);
    assert_eq!(proof_action(key(Code::Enter)), ProofAction::Submit);
    let alt = Key { code: Code::Char('x'), control: false, alt: true, release: false };
    assert_eq!(proof_action(alt), ProofAction::Nothing);
}
