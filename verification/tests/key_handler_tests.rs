use ghostwriter::editor::cursor::Cursor;
use ghostwriter::editor::key_handler::KeyHandler;
use ghostwriter::editor::rope::Rope;
use ghostwriter::keymap::{Key, KeyInput};

fn key(code: Key, shift: bool, ctrl: bool, alt: bool) -> KeyInput {
    KeyInput { code, shift, ctrl, alt }
}

#[test]
fn test_navigation_key_handling() {
    let mut rope = Rope::from_str("hello world\nsecond");
    let mut cursor = Cursor::new();
    let mut handler = KeyHandler::new();
    let mut sel = None;
    handler.handle(key(Key::Right, false, false, true), &mut rope, &mut cursor, &mut sel);
    assert_eq!(cursor.position(), (0, 4));
    handler.handle(key(Key::Down, false, false, false), &mut rope, &mut cursor, &mut sel);
    assert_eq!(cursor.position(), (1, 4));
    assert!(sel.is_none());
}

#[test]
fn typing_inserts_at_the_cursor() {
    let mut rope = Rope::from_str("ac");
    let mut cursor = Cursor { line: 0, column: 1 };
    let mut handler = KeyHandler::new();
    let mut sel = None;
    handler.handle(key(Key::Char('b'), false, false, false), &mut rope, &mut cursor, &mut sel);
    assert_eq!(rope.as_string(), "abc");
    assert_eq!(cursor.position(), (0, 2));
}

#[test]
fn enter_splits_the_line() {
    let mut rope = Rope::from_str("ab");
    let mut cursor = Cursor { line: 0, column: 1 };
    let mut handler = KeyHandler::new();
    let mut sel = None;
    handler.handle(key(Key::Enter, false, false, false), &mut rope, &mut cursor, &mut sel);
    assert_eq!(rope.as_string(), "a\nb");
    assert_eq!(cursor.position(), (1, 0));
}

#[test]
fn backspace_deletes_the_previous_character() {
    let mut rope = Rope::from_str("ab");
    let mut cursor = Cursor { line: 0, column: 2 };
    let mut handler = KeyHandler::new();
    let mut sel = None;
    handler.handle(key(Key::Backspace, false, false, false), &mut rope, &mut cursor, &mut sel);
    assert_eq!(rope.as_string(), "a");
    assert_eq!(cursor.position(), (0, 1));
}

#[test]
fn shifted_navigation_grows_a_selection() {
    let mut rope = Rope::from_str("hello");
    let mut cursor = Cursor::new();
    let mut handler = KeyHandler::new();
    let mut sel = None;
    handler.handle(key(Key::Right, true, false, false), &mut rope, &mut cursor, &mut sel);
    handler.handle(key(Key::Right, true, false, false), &mut rope, &mut cursor, &mut sel);
    let s = sel.expect("selection");
    assert_eq!(s.start.position(), (0, 0));
    assert_eq!(s.end.position(), (0, 2));
}
