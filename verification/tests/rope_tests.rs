use ghostwriter::editor::rope::Rope;
use std::time::Instant;

const CHUNK_CHARS: usize = 65536;

#[test]
fn test_rope_insert_at_position() {
    let mut r = Rope::from_str("Hello World");
    r.insert(6, "Rust ");
    assert_eq!(r.as_string(), "Hello Rust World");
    assert_eq!(r.len_chars(), 16);
}

#[test]
fn test_rope_delete_range() {
    let mut r = Rope::from_str("Hello Rust World");
    r.delete(6..11);
    assert_eq!(r.as_string(), "Hello World");
}

#[test]
fn test_rope_line_operations() {
    let r = Rope::from_str("line1\nline2\nline3");
    assert_eq!(r.line_at(1).as_deref(), Some("line2"));
    assert_eq!(r.as_string().lines().count(), 3);
}

#[test]
fn test_rope_large_file_performance() {
    let chunk = "a".repeat(1024 * 1024);
    let mut data = String::new();
    for _ in 0..5 {
        data.push_str(&chunk);
    }
    let mut r = Rope::from_str(&data);
    let mid = r.len_chars() / 2;
    r.insert(mid, "b");
    let mid = r.len_chars() / 2;
    r.delete(mid..mid + 1);
    assert_eq!(r.len_chars(), 5 * 1024 * 1024);
}

#[test]
fn test_rope_insert_empty_and_delete_all() {
    let mut r = Rope::new();
    r.insert(0, "abc");
    assert_eq!(r.as_string(), "abc");
    let n = r.len_chars();
    r.delete(0..n);
    assert!(r.as_string().is_empty());
}

#[test]
fn test_rope_slice_across_chunks() {
    let mut data = "a".repeat(CHUNK_CHARS + 10);
    data.push_str(&"b".repeat(20));
    let r = Rope::from_str(&data);
    let slice = r.slice(CHUNK_CHARS - 5..CHUNK_CHARS + 15);
    assert_eq!(slice.chars().count(), 20);
}

#[test]
fn test_char_at_out_of_bounds() {
    let r = Rope::from_str("abc");
    assert_eq!(r.char_at(5), None);
}

#[test]
fn test_line_at_out_of_bounds() {
    let r = Rope::from_str("a\nb");
    assert_eq!(r.line_at(5), None);
}

#[test]
fn test_lines_range_virtual_scrolling() {
    let text = "a\n".repeat(1_000_000);
    let r = Rope::from_str(&text);
    let lines = r.lines_range(999_990, 5);
    assert_eq!(lines.len(), 5);
}

#[test]
fn test_rope_operation_performance() {
    let mut r = Rope::new();
    let start = Instant::now();
    for _ in 0..1000 {
        r.append("a");
    }
    let dur = start.elapsed();
    assert!(dur.as_millis() < 5000);
    assert_eq!(r.len_chars(), 1000);
}

#[test]
fn test_memory_usage_scaling() {
    let text = "a".repeat(CHUNK_CHARS * 3);
    let r = Rope::from_str(&text);
    assert!(r.chunk_count() <= 4);
}
