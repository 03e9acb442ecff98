use ghostwriter::buffer::{Eol, RopeBuffer};
use std::io::{Read, Seek, Write};

fn buffer_from_file(file: &tempfile::NamedTempFile) -> RopeBuffer {
    let mut bytes = Vec::new();
    let mut f = file.reopen().unwrap();
    f.read_to_end(&mut bytes).unwrap();
    RopeBuffer::load_from_bytes(&bytes)
}

fn write_file(file: &mut tempfile::NamedTempFile, bytes: &[u8]) {
    let f = file.as_file_mut();
    f.set_len(0).unwrap();
    f.rewind().unwrap();
    f.write_all(bytes).unwrap();
    f.flush().unwrap();
}

fn read_file(file: &tempfile::NamedTempFile) -> Vec<u8> {
    let mut bytes = Vec::new();
    let mut f = file.reopen().unwrap();
    f.read_to_end(&mut bytes).unwrap();
    bytes
}

#[test]
fn open_valid_utf8() {
    let mut file = tempfile::NamedTempFile::new().unwrap();
    write_file(&mut file, b"hello\n");
    let buf = buffer_from_file(&file);
    assert_eq!(buf.text(), "hello\n");
    assert!(!buf.has_invalid());
}

#[test]
fn open_invalid_utf8_sets_flag() {
    let mut file = tempfile::NamedTempFile::new().unwrap();
    write_file(&mut file, &[0x66, 0x6f, 0x80, 0x6f]);
    let buf = buffer_from_file(&file);
    assert!(buf.has_invalid());
    assert_eq!(buf.text(), "fo\u{FFFD}o");
}

#[test]
fn insert_and_delete() {
    let mut buf = RopeBuffer::from_text("hello");
    buf.insert(5, " world");
    assert_eq!(buf.text(), "hello world");
    buf.delete(5..11);
    assert_eq!(buf.text(), "hello");
}

#[test]
fn byte_line_col_roundtrip() {
    let buf = RopeBuffer::from_text("one\ntwo\n");
    let (line, col) = buf.byte_to_line_col(5);
    assert_eq!((line, col), (1, 1));
    let byte = buf.line_col_to_byte(line, col);
    assert_eq!(byte, 5);
}

#[test]
fn grapheme_navigation() {
    let buf = RopeBuffer::from_text("a\u{0301}\u{1F60A}b");
    assert_eq!(buf.grapheme_right(0), Some(3));
    assert_eq!(buf.grapheme_right(3), Some(7));
    assert_eq!(buf.grapheme_right(7), Some(8));
    assert_eq!(buf.grapheme_right(8), None);
    assert_eq!(buf.grapheme_left(8), Some(7));
    assert_eq!(buf.grapheme_left(7), Some(3));
    assert_eq!(buf.grapheme_left(3), Some(0));
    assert_eq!(buf.grapheme_left(0), None);
}

#[test]
fn open_and_save_preserves_crlf() {
    let mut file = tempfile::NamedTempFile::new().unwrap();
    write_file(&mut file, b"one\r\ntwo\r\n");
    let buf = buffer_from_file(&file);
    assert_eq!(buf.text(), "one\ntwo\n");
    assert_eq!(buf.eol(), Eol::CrLf);
    write_file(&mut file, &buf.save_bytes());
    assert_eq!(read_file(&file), b"one\r\ntwo\r\n");
}

#[test]
fn save_preserves_lf() {
    let mut file = tempfile::NamedTempFile::new().unwrap();
    let buf = RopeBuffer::from_text("hello\n");
    write_file(&mut file, &buf.save_bytes());
    assert_eq!(read_file(&file), b"hello\n");
    assert_eq!(buf.eol(), Eol::Lf);
}

#[test]
fn line_col_mutual_inverse_on_sample() {
    let buf = RopeBuffer::from_text("abc\ndefg\n\nhi");
    for byte in 0..=buf.len_bytes() {
        let (line, col) = buf.byte_to_line_col(byte);
        assert_eq!(buf.line_col_to_byte(line, col), byte);
    }
}

#[test]
fn grapheme_steps_are_mutual_inverses() {
    let buf = RopeBuffer::from_text("x\u{0301}y\u{1F60A}z");
    let mut boundary = buf.grapheme_right(0).unwrap();
    while boundary < buf.len_bytes() {
        let left = buf.grapheme_left(boundary).unwrap();
        assert_eq!(buf.grapheme_right(left), Some(boundary));
        boundary = buf.grapheme_right(boundary).unwrap();
    }
}

#[test]
fn insert_then_delete_restores_text() {
    let mut buf = RopeBuffer::from_text("kernel\npanic");
    buf.insert(6, " mode");
    buf.delete(6..11);
    assert_eq!(buf.text(), "kernel\npanic");
}

#[test]
fn slice_lines_strips_newlines() {
    let buf = RopeBuffer::from_text("one\ntwo\nthree");
    let lines = buf.slice_lines(0, 10);
    assert_eq!(lines, vec!["one", "two", "three"]);
    assert_eq!(buf.len_lines(), 3);
    assert_eq!(buf.slice(4..7), "two");
}
