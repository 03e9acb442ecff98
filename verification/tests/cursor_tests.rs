use ghostwriter::editor::cursor::Cursor;
use ghostwriter::editor::rope::Rope;

fn rope(text: &str) -> Rope {
    Rope::from_str(text)
}

#[test]
fn test_cursor_word_navigation() {
    let r = rope("hello world foo_bar");
    let mut c = Cursor::new();
    c.move_next_word(&r);
    assert_eq!(c.position(), (0, 4));
    c.move_next_word(&r);
    assert_eq!(c.position(), (0, 10));
    c.move_prev_word(&r);
    assert_eq!(c.position(), (0, 6));
    c.move_prev_word(&r);
    assert_eq!(c.position(), (0, 0));
}

#[test]
fn test_cursor_line_boundaries() {
    let r = rope("line1\nline2");
    let mut c = Cursor { line: 1, column: 2 };
    c.move_line_start();
    assert_eq!(c.position(), (1, 0));
    c.column = 1;
    c.move_line_end(&r);
    assert_eq!(c.position(), (1, 5));
}

#[test]
fn test_cursor_document_boundaries() {
    let r = rope("a\nb\nc");
    let mut c = Cursor { line: 1, column: 1 };
    c.move_doc_start();
    assert_eq!(c.position(), (0, 0));
    c.move_doc_end(&r);
    assert_eq!(c.position(), (2, 1));
}

#[test]
fn test_cursor_validation() {
    let r = rope("foo\r\nbar");
    let mut c = Cursor { line: 10, column: 10 };
    c.validate(&r);
    assert_eq!(c.position(), (1, 3));
}

#[test]
fn test_cursor_boundary_movements() {
    let r = rope("line1\nline2");
    let mut c = Cursor::new();
    c.move_left(&r);
    assert_eq!(c.position(), (0, 0));
    c.move_doc_end(&r);
    let end = c.position();
    c.move_right(&r);
    assert_eq!(c.position(), end);
    c.move_doc_start();
    c.move_up(&r);
    assert_eq!(c.position(), (0, 0));
    c.move_doc_end(&r);
    c.move_down(&r);
    assert_eq!(c.position(), end);
}

#[test]
fn test_cursor_word_navigation_edges() {
    let r = rope("foo bar");
    let mut c = Cursor::new();
    c.move_prev_word(&r);
    assert_eq!(c.position(), (0, 0));
    c.move_doc_end(&r);
    c.move_next_word(&r);
    assert_eq!(c.position(), (0, 7));
}
