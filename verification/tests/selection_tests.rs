use ghostwriter::editor::cursor::Cursor;
use ghostwriter::editor::rope::Rope;
use ghostwriter::editor::selection::Selection;

#[test]
fn test_selection_with_shift_navigation() {
    let rope = Rope::from_str("hello");
    let mut cursor = Cursor::new();
    cursor.move_right(&rope);
    cursor.move_right(&rope);
    let mut sel = Selection::new(cursor);
    cursor.move_left(&rope);
    sel.extend(cursor);
    cursor.move_left(&rope);
    sel.extend(cursor);
    sel.normalize();
    assert_eq!(sel.copy(&rope), "he");
}

#[test]
fn test_selection_operations() {
    let mut rope = Rope::from_str("Hello world");
    let mut cursor = Cursor::new();
    let mut sel = Selection::new(cursor);
    for _ in 0..5 {
        cursor.move_right(&rope);
        sel.extend(cursor);
    }
    sel.normalize();
    assert_eq!(sel.copy(&rope), "Hello");
    assert_eq!(sel.cut(&mut rope), "Hello");
    assert_eq!(rope.as_string(), " world");

    let mut rope = Rope::from_str("Hello world");
    let mut cursor = Cursor::new();
    let mut sel = Selection::new(cursor);
    for _ in 0..6 {
        cursor.move_right(&rope);
        sel.extend(cursor);
    }
    sel.delete(&mut rope);
    assert_eq!(rope.as_string(), "world");
}

#[test]
fn test_selection_normalization() {
    let rope = Rope::from_str("abc");
    let mut sel = Selection {
        start: Cursor { line: 0, column: 2 },
        end: Cursor { line: 0, column: 0 },
    };
    sel.normalize();
    assert_eq!(sel.copy(&rope), "ab");
}

#[test]
fn test_selection_across_lines() {
    let rope = Rope::from_str("ab\ncd\nef");
    let mut cursor = Cursor::new();
    cursor.move_right(&rope);
    let mut sel = Selection::new(cursor);
    cursor.move_down(&rope);
    cursor.move_right(&rope);
    sel.extend(cursor);
    sel.normalize();
    assert_eq!(sel.copy(&rope), "b\ncd");
}
