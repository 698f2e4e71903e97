use synd_kvsd_protocol::prompt::{KeyInput, Move, Prompt};

#[test]
fn prompt_ascii() {
    let mut p = Prompt::new();
    assert!(p.handle_key_event(KeyInput::Char('a')));

    p.handle_key_event(KeyInput::Char('b'));
    p.handle_key_event(KeyInput::Char('c'));
    assert_eq!(p.line(), "abc");

    assert!(!p.handle_key_event(KeyInput::Other));
}

#[test]
fn prompt_grapheme() {
    let mut p = Prompt::new();
    // insert multi byte
    p.handle_key_event(KeyInput::Char('山'));
    p.handle_key_event(KeyInput::Char('口'));
    p.handle_key_event(KeyInput::Backspace);

    assert_eq!(p.line(), "山");

    p.handle_key_event(KeyInput::Backspace);
    assert_eq!(p.line(), "");

    p.handle_key_event(KeyInput::Backspace);
    p.handle_key_event(KeyInput::Backspace);
    p.handle_key_event(KeyInput::Backspace);
    assert_eq!(p.line(), "");
}

#[test]
fn cursor_follows_graphemes() {
    let mut p = Prompt::new();
    assert_eq!(p.cursor(), 0);
    p.insert_char('e');
    p.insert_char('\u{301}');
    // 'e' and the combining accent form one grapheme of three bytes.
    assert_eq!(p.line(), "e\u{301}");
    assert_eq!(p.move_cursor(Move::BackwardChar(1)), 0);
    p.insert_char('x');
    assert_eq!(p.cursor(), 4);
    p.delete_backward();
    assert_eq!(p.line(), "e\u{301}");
    assert_eq!(p.cursor(), 3);
}
