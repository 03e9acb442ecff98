use ghostwriter::buffer::RopeBuffer;
use ghostwriter::hex::compose_hex;
use ghostwriter::proto::{Cursor, StyleSpan};
use ghostwriter::viewport::compose;

fn span(start: u16, end: u16, class: &str) -> StyleSpan {
    StyleSpan { start_col: start, end_col: end, class_name: class.to_string() }
}

#[test]
fn compose_basic() {
    let buf = RopeBuffer::from_text("hello  \nworld\n");
    let frame = compose(&buf, 0, 80, 2, 0, Some(1..4), &vec![1], 3, "L", "R");
    assert_eq!(frame.kind, "editor");
    assert_eq!(frame.doc_v, 3);
    assert_eq!(frame.lines.len(), 2);
    assert_eq!(frame.lines[0].text, "hello  ");
    assert_eq!(frame.lines[1].text, "world");
    assert_eq!(frame.cursors, vec![Cursor { line: 0, col: 1 }]);
    assert!(frame.lines[0].spans.contains(&span(1, 4, "sel")));
    assert!(frame.lines[0].spans.contains(&span(5, 7, "ws")));
}

#[test]
fn compose_error_span() {
    let buf = RopeBuffer::from_text("bad\u{FFFD}line\n");
    let frame = compose(&buf, 0, 80, 1, 0, None, &vec![], 0, "", "");
    assert!(frame.lines[0].spans.contains(&span(3, 4, "err")));
}

#[test]
fn compose_hscroll_beyond_line() {
    let buf = RopeBuffer::from_text("short\n");
    let frame = compose(&buf, 0, 80, 1, 10, None, &vec![], 0, "", "");
    assert_eq!(frame.lines.len(), 1);
    assert_eq!(frame.lines[0].text, "");
}

#[test]
fn compose_multiline_selection() {
    let buf = RopeBuffer::from_text("hello\nworld\n");
    let frame = compose(&buf, 0, 80, 2, 0, Some(2..8), &vec![], 0, "", "");
    assert!(frame.lines[0].spans.contains(&span(2, 5, "sel")));
    assert!(frame.lines[1].spans.contains(&span(0, 2, "sel")));
}

#[test]
fn spans_and_cursors_stay_inside_the_viewport() {
    let buf = RopeBuffer::from_text("alpha beta  \ngamma\u{FFFD}  delta\nepsilon\n");
    let cursors = vec![0, 7, 20, 30];
    let frame = compose(&buf, 0, 8, 2, 2, Some(3..25), &cursors, 0, "", "");
    let cols = 8u16;
    for line in &frame.lines {
        assert!(line.text.chars().count() <= cols as usize);
        for s in &line.spans {
            assert!(s.start_col <= s.end_col);
            assert!(s.end_col <= cols);
            assert!((s.end_col as usize) <= line.text.chars().count());
        }
    }
    for c in &frame.cursors {
        assert!(c.line < 2);
    }
}

#[test]
fn renders_single_line() {
    let bytes = b"hello\x00world\xff";
    let frame = compose_hex(bytes, 0, 80, 1, 1, "", "");
    assert_eq!(
        frame.lines[0].text,
        "68 65 6C 6C 6F 00 77 6F  72 6C 64 FF             |hello.world."
    );
}

#[test]
fn hex_frame_shows_raw_bytes() {
    let frame = compose_hex(&[0xFF, 0x00, 0x41], 0, 80, 24, 1, "", "");
    assert_eq!(frame.kind, "hex");
    assert_eq!(frame.doc_v, 1);
    assert_eq!(
        frame.lines[0].text,
        "FF 00 41                                         |..A"
    );
    assert!(frame.cursors.is_empty());
}
