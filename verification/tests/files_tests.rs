use ghostwriter::editor::cursor::Cursor;
use ghostwriter::editor::undo::UndoStack;
use ghostwriter::files::diff::{diff_lines, DiffOp};
use ghostwriter::files::file_history::{FileHistory, FileState};
use ghostwriter::files::file_manager::FileManager;
use ghostwriter::files::file_watcher::{resolve_conflict, ConflictResolution};
use ghostwriter::files::search::line_matches;

#[test]
fn test_simple_diff() {
    let old = "a\nb\nc";
    let new = "a\nc\nd";
    let diff = diff_lines(old, new);
    assert!(matches!(&diff[1], DiffOp::Delete(l) if l == "b"));
    assert!(matches!(&diff[2], DiffOp::Equal(l) if l == "c"));
}

#[test]
fn diff_replays_both_sides() {
    let old = "one\ntwo\nthree";
    let new = "one\n2\nthree\nfour";
    let diff = diff_lines(old, new);
    let mut old_side = Vec::new();
    let mut new_side = Vec::new();
    for op in &diff {
        match op {
            DiffOp::Equal(l) => {
                old_side.push(l.clone());
                new_side.push(l.clone());
            }
            DiffOp::Insert(l) => new_side.push(l.clone()),
            DiffOp::Delete(l) => old_side.push(l.clone()),
            DiffOp::Replace(a, b) => {
                old_side.push(a.clone());
                new_side.push(b.clone());
            }
        }
    }
    assert_eq!(old_side, vec!["one", "two", "three"]);
    assert_eq!(new_side, vec!["one", "2", "three", "four"]);
}

fn sample_state(path: &str) -> FileState {
    FileState {
        path: path.to_string(),
        cursor: Cursor::new(),
        scroll_x: 0,
        scroll_y: 0,
        undo: UndoStack::new(10),
    }
}

#[test]
fn test_history_stack_operations() {
    let mut hist = FileHistory::new();
    hist.push(sample_state("a"));
    hist.push(sample_state("b"));
    assert_eq!(hist.current().unwrap().path, "b");
    hist.back();
    assert_eq!(hist.current().unwrap().path, "a");
    hist.forward();
    assert_eq!(hist.current().unwrap().path, "b");
}

#[test]
fn test_branching_behavior() {
    let mut hist = FileHistory::new();
    hist.push(sample_state("a"));
    hist.push(sample_state("b"));
    hist.back();
    hist.push(sample_state("c"));
    assert_eq!(hist.len(), 2);
    assert_eq!(hist.current().unwrap().path, "c");
    assert!(hist.forward().is_none());
    hist.back();
    assert_eq!(hist.current().unwrap().path, "a");
    hist.forward();
    assert_eq!(hist.current().unwrap().path, "c");
}

#[test]
fn test_state_persistence() {
    let mut hist = FileHistory::new();
    let mut state = sample_state("a");
    state.cursor.line = 5;
    state.scroll_x = 2;
    hist.push(state);
    assert_eq!(hist.current().unwrap().cursor.line, 5);
    hist.back();
    assert!(hist.current().is_some());
    assert_eq!(hist.current().unwrap().cursor.line, 5);
}

#[test]
fn test_unlimited_history() {
    let mut hist = FileHistory::new();
    for i in 0..1000 {
        hist.push(sample_state(&format!("{i}")));
    }
    assert_eq!(hist.len(), 1000);
}

#[test]
fn test_binary_file_detection() {
    assert!(FileManager::is_binary(b"abc\0def"));
    assert!(!FileManager::is_binary(b"plain text"));
}

#[test]
fn test_utf8_hex_fallback() {
    let data = b"hello\xFFworld";
    let s = FileManager::to_utf8_or_hex(data);
    assert!(s.contains("FF"));
    assert_eq!(
        FileManager::to_utf8_or_hex(&[0xFFu8, 0x00]),
        "FF 00"
    );
    assert_eq!(FileManager::to_utf8_or_hex(b"plain"), "plain");
}

#[test]
fn test_conflict_resolution_options() {
    let local = b"local\n";
    let external = b"external\n";
    assert_eq!(
        resolve_conflict(ConflictResolution::KeepLocal, local, external),
        local
    );
    assert_eq!(
        resolve_conflict(ConflictResolution::AcceptExternal, local, external),
        external
    );
    let merged = resolve_conflict(ConflictResolution::ManualMerge, local, external);
    let merged_str = String::from_utf8(merged).unwrap();
    assert!(merged_str.contains("local"));
    assert!(merged_str.contains("external"));
}

#[test]
fn merge_skips_lines_already_present() {
    let local = b"shared\nonly local\n";
    let external = b"shared\nonly external\n";
    let merged = resolve_conflict(ConflictResolution::ManualMerge, local, external);
    let merged_str = String::from_utf8(merged).unwrap();
    assert_eq!(merged_str, "shared\nonly local\nonly external\n");
}

#[test]
fn line_match_respects_case_folding() {
    assert!(line_matches("Needle in Haystack", "needle", false));
    assert!(!line_matches("Needle in Haystack", "needle", true));
    assert!(line_matches("needle", "needle", true));
}
