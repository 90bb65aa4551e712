use stepwise::practice::draft::{Draft, DRAFT_LIMIT};

#[test]
fn a_draft_takes_no_control_character() {
    let mut draft: Draft = Draft::new();
    assert!(draft.type_character('a'));
    assert!(!draft.type_character('\n'));
    assert!(!draft.type_character('\u{7f}'));
    assert!(draft.type_character('中'));
    assert_eq!(draft.as_str(), "a中");
    draft.backspace();
    assert_eq!(draft.as_str(), "a");
    draft.backspace();
    draft.backspace();
    assert_eq!(draft.as_str(), "");
}

#[test]
fn pasting_drops_control_characters_and_stops_at_the_limit() {
    let mut draft: Draft = Draft::new();
    draft.paste("P\t->\u{1b} Q");
    assert_eq!(draft.as_str(), "P-> Q");
    draft.clear();
    draft.paste(&"x".repeat(DRAFT_LIMIT - 1));
    draft.paste("中y");
    assert_eq!(draft.as_str().len(), DRAFT_LIMIT - 1);
    assert!(draft.type_character('z'));
    assert_eq!(draft.as_str().len(), DRAFT_LIMIT);
    assert!(!draft.type_character('z'));
}
