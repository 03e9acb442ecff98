use ghostwriter::editor::cursor::Cursor;
use ghostwriter::editor::rope::Rope;
use ghostwriter::editor::undo::{UndoOperation, UndoRecord, UndoStack};

#[test]
fn test_undo_insert_operation() {
    let mut rope = Rope::from_str("hello");
    let mut cursor = Cursor::new();
    let mut stack = UndoStack::new(10);
    let before = cursor;
    rope.insert(0, "a");
    cursor.move_right(&rope);
    let after = cursor;
    stack.push(UndoRecord {
        op: UndoOperation::Insert { index: 0, text: "a".to_string() },
        before,
        after,
    });
    assert!(stack.undo(&mut rope, &mut cursor));
    assert_eq!(rope.as_string(), "hello");
    assert_eq!(cursor, before);
}

#[test]
fn test_redo_after_undo() {
    let mut rope = Rope::from_str("hello");
    let mut cursor = Cursor::new();
    let mut stack = UndoStack::new(10);
    let before = cursor;
    rope.insert(0, "a");
    cursor.move_right(&rope);
    let after = cursor;
    stack.push(UndoRecord {
        op: UndoOperation::Insert { index: 0, text: "a".to_string() },
        before,
        after,
    });
    stack.undo(&mut rope, &mut cursor);
    assert!(stack.redo(&mut rope, &mut cursor));
    assert_eq!(rope.as_string(), "ahello");
    assert_eq!(cursor, after);
}

#[test]
fn test_undo_stack_limit() {
    let mut stack = UndoStack::new(2);
    for i in 0..3 {
        stack.push(UndoRecord {
            op: UndoOperation::Insert { index: i, text: "x".to_string() },
            before: Cursor::new(),
            after: Cursor::new(),
        });
    }
    // only the newest two survive: a third undo finds nothing
    let mut rope = Rope::from_str("xxx");
    let mut cursor = Cursor::new();
    assert!(stack.undo(&mut rope, &mut cursor));
    assert!(stack.undo(&mut rope, &mut cursor));
    assert!(!stack.undo(&mut rope, &mut cursor));
}

#[test]
fn test_cursor_position_restoration() {
    let mut rope = Rope::from_str("hi");
    let mut cursor = Cursor::new();
    cursor.move_right(&rope);
    let mut stack = UndoStack::new(10);
    let before = cursor;
    rope.insert(1, "a");
    cursor.move_right(&rope);
    let after = cursor;
    stack.push(UndoRecord {
        op: UndoOperation::Insert { index: 1, text: "a".to_string() },
        before,
        after,
    });
    assert!(stack.undo(&mut rope, &mut cursor));
    assert_eq!(cursor, before);
}
