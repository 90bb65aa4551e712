//! Which operation a key asks for. The terminal reads its own events and performs the
//! operation; which key means what is decided here, for the expression view and the proof
//! view alike.

use vstd::prelude::*;

verus! {

/// A key as the terminal reports it.
#[derive(Clone, Copy, Debug, PartialEq, Eq, Structural)]
pub enum Code {
    Char(char),
    Enter,
    Esc,
    Backspace,
    Up,
    Down,
    PageUp,
    PageDown,
    Function(u8),
    Other,
}

/// One key event: the key, the modifiers held, and whether it is a release.
#[derive(Clone, Copy, Debug, PartialEq, Eq, Structural)]
pub struct Key {
    pub code: Code,
    pub control: bool,
    pub alt: bool,
    pub release: bool,
}

/// What a key asks of the expression view.
#[derive(Clone, Copy, Debug, PartialEq, Eq, Structural)]
pub enum EvaluationAction {
    Nothing,
    Quit,
    /// Close the open blank without submitting.
    Cancel,
    Scroll { down: bool },
    Submit,
    Backspace,
    ClearInput,
    Type(char),
    /// Open the blank at the selected node.
    OpenSelected,
    SelectPrevious,
    SelectNext,
    Hint,
    Help,
    ToggleMode,
    Undo,
    Reset,
    NextQuestion,
    PreviousQuestion,
}

/// What a key asks of the proof view. Every character belongs to the proof line, so the
/// moves between questions take the control key.
#[derive(Clone, Copy, Debug, PartialEq, Eq, Structural)]
pub enum ProofAction {
    Nothing,
    Quit,
    Undo,
    ClearInput,
    NextQuestion,
    PreviousQuestion,
    Submit,
    Backspace,
    Rules,
    ScrollUp,
    ScrollDown,
    Type(char),
}

/// The expression view's key map. Ctrl+C quits, Esc cancels and the page keys scroll
/// wherever the student is; with a blank open keys edit the answer, otherwise they act on
/// the question.
pub open spec fn spec_evaluation_action(key: Key, drafting: bool) -> EvaluationAction {
    if key.release {
        EvaluationAction::Nothing
    } else if key.control && key.code == Code::Char('c') {
        EvaluationAction::Quit
    } else if key.code == Code::Esc {
        EvaluationAction::Cancel
    } else if key.code == Code::PageUp || key.code == Code::PageDown {
        EvaluationAction::Scroll { down: key.code == Code::PageDown }
    } else if drafting {
        match key.code {
            Code::Enter => EvaluationAction::Submit,
            Code::Backspace => EvaluationAction::Backspace,
            Code::Char(c) => if c == 'u' && key.control {
                EvaluationAction::ClearInput
            } else if !key.control && !key.alt {
                EvaluationAction::Type(c)
            } else {
                EvaluationAction::Nothing
            },
            _ => EvaluationAction::Nothing,
        }
    } else {
        match key.code {
            Code::Char('q') => EvaluationAction::Quit,
            Code::Enter => EvaluationAction::OpenSelected,
            Code::Up | Code::Char('k') => EvaluationAction::SelectPrevious,
            Code::Down | Code::Char('j') => EvaluationAction::SelectNext,
            Code::Char('h') => EvaluationAction::Hint,
            Code::Char('?') => EvaluationAction::Help,
            Code::Char('s') => EvaluationAction::ToggleMode,
            Code::Char('u') => EvaluationAction::Undo,
            Code::Char('r') => EvaluationAction::Reset,
            Code::Char('n') => EvaluationAction::NextQuestion,
            Code::Char('p') => EvaluationAction::PreviousQuestion,
            _ => EvaluationAction::Nothing,
        }
    }
}

/// The proof view's key map.
pub open spec fn spec_proof_action(key: Key) -> ProofAction {
    if key.release {
        ProofAction::Nothing
    } else if key.control {
        match key.code {
            Code::Char('c') | Code::Char('q') => ProofAction::Quit,
            Code::Char('z') => ProofAction::Undo,
            Code::Char('u') => ProofAction::ClearInput,
            Code::Char('n') => ProofAction::NextQuestion,
            Code::Char('p') => ProofAction::PreviousQuestion,
            _ => ProofAction::Nothing,
        }
    } else {
        match key.code {
            Code::Enter => ProofAction::Submit,
            Code::Backspace => ProofAction::Backspace,
            Code::Esc => ProofAction::ClearInput,
            Code::Function(1) => ProofAction::Rules,
            Code::Up | Code::PageUp => ProofAction::ScrollUp,
            Code::Down | Code::PageDown => ProofAction::ScrollDown,
            Code::Char(c) => if key.alt {
                ProofAction::Nothing
            } else {
                ProofAction::Type(c)
            },
            _ => ProofAction::Nothing,
        }
    }
}

/// What a key asks of the expression view, with a blank open (`drafting`) or not.
pub fn evaluation_action(key: Key, drafting: bool) -> (action: EvaluationAction)
    ensures
        action == spec_evaluation_action(key, drafting),
{
    if key.release {
        return EvaluationAction::Nothing;
    }
    if key.control && key.code == Code::Char('c') {
        return EvaluationAction::Quit;
    }
    match key.code {
        Code::Esc => {
            return EvaluationAction::Cancel;
        },
        Code::PageUp => {
            return EvaluationAction::Scroll { down: false };
        },
        Code::PageDown => {
            return EvaluationAction::Scroll { down: true };
        },
        _ => {},
    }
    if drafting {
        return match key.code {
            Code::Enter => EvaluationAction::Submit,
            Code::Backspace => EvaluationAction::Backspace,
            Code::Char(c) => {
                if c == 'u' && key.control {
                    EvaluationAction::ClearInput
                } else if !key.control && !key.alt {
                    EvaluationAction::Type(c)
                } else {
                    EvaluationAction::Nothing
                }
            },
            _ => EvaluationAction::Nothing,
        };
    }
    match key.code {
        Code::Char('q') => EvaluationAction::Quit,
        Code::Enter => EvaluationAction::OpenSelected,
        Code::Up | Code::Char('k') => EvaluationAction::SelectPrevious,
        Code::Down | Code::Char('j') => EvaluationAction::SelectNext,
        Code::Char('h') => EvaluationAction::Hint,
        Code::Char('?') => EvaluationAction::Help,
        Code::Char('s') => EvaluationAction::ToggleMode,
        Code::Char('u') => EvaluationAction::Undo,
        Code::Char('r') => EvaluationAction::Reset,
        Code::Char('n') => EvaluationAction::NextQuestion,
        Code::Char('p') => EvaluationAction::PreviousQuestion,
        _ => EvaluationAction::Nothing,
    }
}

/// What a key asks of the proof view.
pub fn proof_action(key: Key) -> (action: ProofAction)
    ensures
        action == spec_proof_action(key),
{
    if key.release {
        return ProofAction::Nothing;
    }
    if key.control {
        return match key.code {
            Code::Char('c') | Code::Char('q') => ProofAction::Quit,
            Code::Char('z') => ProofAction::Undo,
            Code::Char('u') => ProofAction::ClearInput,
            Code::Char('n') => ProofAction::NextQuestion,
            Code::Char('p') => ProofAction::PreviousQuestion,
            _ => ProofAction::Nothing,
        };
    }
    match key.code {
        Code::Enter => ProofAction::Submit,
        Code::Backspace => ProofAction::Backspace,
        Code::Esc => ProofAction::ClearInput,
        Code::Function(1) => ProofAction::Rules,
        Code::Up | Code::PageUp => ProofAction::ScrollUp,
        Code::Down | Code::PageDown => ProofAction::ScrollDown,
        Code::Char(c) => {
            if key.alt {
                ProofAction::Nothing
            } else {
                ProofAction::Type(c)
            }
        },
        _ => ProofAction::Nothing,
    }
}

/// Ctrl+C leaves either view from any state, and a release never acts.
pub proof fn law_control_c_always_quits(drafting: bool, alt: bool)
    ensures
        spec_evaluation_action(
            Key { code: Code::Char('c'), control: true, alt, release: false },
            drafting,
        ) == EvaluationAction::Quit,
        spec_proof_action(Key { code: Code::Char('c'), control: true, alt, release: false })
            == ProofAction::Quit,
        forall|key: Key|
            key.release ==> spec_evaluation_action(key, drafting) == EvaluationAction::Nothing
                && spec_proof_action(key) == ProofAction::Nothing,
{
}

/// With a blank open every plain character is part of the answer, never a command; in the
/// proof view every character without Ctrl or Alt is part of the proof line.
pub proof fn law_typed_characters_are_text(c: char)
    ensures
        spec_evaluation_action(Key { code: Code::Char(c), control: false, alt: false, release: false }, true)
            == EvaluationAction::Type(c),
        spec_proof_action(Key { code: Code::Char(c), control: false, alt: false, release: false })
            == ProofAction::Type(c),
{
}

} // verus!
