use ghostwriter::buffer::RopeBuffer;
use ghostwriter::undo::UndoStack;

#[test]
fn undo_redo_insert() {
    let mut buf = RopeBuffer::from_text("hi");
    let mut stack = UndoStack::new();
    stack.insert(&mut buf, 2, " there");
    assert_eq!(buf.text(), "hi there");
    assert!(stack.undo(&mut buf));
    assert_eq!(buf.text(), "hi");
    assert!(stack.redo(&mut buf));
    assert_eq!(buf.text(), "hi there");
}

#[test]
fn undo_redo_delete() {
    let mut buf = RopeBuffer::from_text("hello world");
    let mut stack = UndoStack::new();
    stack.delete(&mut buf, 5..11);
    assert_eq!(buf.text(), "hello");
    assert!(stack.undo(&mut buf));
    assert_eq!(buf.text(), "hello world");
    assert!(stack.redo(&mut buf));
    assert_eq!(buf.text(), "hello");
}

#[test]
fn coalesce_adjacent_inserts() {
    let mut buf = RopeBuffer::from_text("");
    let mut stack = UndoStack::new();
    stack.insert(&mut buf, 0, "h");
    stack.insert(&mut buf, 1, "i");
    stack.insert(&mut buf, 2, "!");
    assert_eq!(buf.text(), "hi!");
    assert!(stack.undo(&mut buf));
    assert_eq!(buf.text(), "");
    assert!(!stack.undo(&mut buf));
}

#[test]
fn separate_non_adjacent_inserts() {
    let mut buf = RopeBuffer::from_text("ab");
    let mut stack = UndoStack::new();
    stack.insert(&mut buf, 1, "1");
    stack.insert(&mut buf, 0, "0");
    assert_eq!(buf.text(), "0a1b");
    assert!(stack.undo(&mut buf));
    assert_eq!(buf.text(), "a1b");
    assert!(stack.undo(&mut buf));
    assert_eq!(buf.text(), "ab");
    assert!(!stack.undo(&mut buf));
}

#[test]
fn undo_then_redo_restores_edit_exactly() {
    let mut buf = RopeBuffer::from_text("state");
    let mut stack = UndoStack::new();
    stack.insert(&mut buf, 5, " machine");
    let edited = buf.text();
    assert!(stack.undo(&mut buf));
    assert_eq!(buf.text(), "state");
    assert!(stack.redo(&mut buf));
    assert_eq!(buf.text(), edited);
    // and the cycle leaves the stacks ready to repeat
    assert!(stack.undo(&mut buf));
    assert_eq!(buf.text(), "state");
}

#[test]
fn single_character_inserts_coalesce_from_empty() {
    // inserts of one character each at the growing caret undo as one edit
    let mut buf = RopeBuffer::from_text("");
    let mut stack = UndoStack::new();
    let text = "verified";
    for (i, part) in ["v", "e", "r", "i", "f", "i", "e", "d"].iter().enumerate() {
        stack.insert(&mut buf, i, part);
    }
    assert_eq!(buf.text(), text);
    assert!(stack.undo(&mut buf));
    assert_eq!(buf.text(), "");
}

#[test]
fn new_edit_clears_redo_history() {
    let mut buf = RopeBuffer::from_text("abc");
    let mut stack = UndoStack::new();
    stack.delete(&mut buf, 0..1);
    assert!(stack.undo(&mut buf));
    stack.delete(&mut buf, 2..3);
    assert!(!stack.redo(&mut buf));
    assert_eq!(buf.text(), "ab");
}
