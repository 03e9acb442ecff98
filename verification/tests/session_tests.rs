use ghostwriter::buffer::RopeBuffer;
use ghostwriter::session::{Session, SessionCmd};
use ghostwriter::undo::UndoStack;
use std::io::{Read, Seek, Write};

#[test]
fn insert_emits_frame() {
    let mut session = Session::new(RopeBuffer::from_text(""), None, 80, 24);
    let effect = session.step(SessionCmd::Insert { text: "hi".to_string() });
    let frame = effect.frame.expect("frame");
    assert_eq!(frame.doc_v, 1);
    assert_eq!(frame.lines[0].text, "hi");
    assert_eq!(frame.cursors[0].line, 0);
    assert_eq!(frame.cursors[0].col, 2);
    assert!(effect.schedule_save);
    let wal = effect.wal_append.expect("wal record");
    assert_eq!(wal.doc_v, 1);

    let effect2 = session.step(SessionCmd::RequestFrame);
    let frame2 = effect2.frame.expect("frame");
    assert_eq!(frame2.doc_v, 1);
    assert_eq!(frame2.lines[0].text, "hi");
}

#[test]
fn save_effect_only_in_editor_mode() {
    let mut session = Session::new(RopeBuffer::from_text("x"), None, 80, 24);
    let effect = session.step(SessionCmd::Save);
    assert!(effect.save_now);
    assert!(effect.frame.is_none());

    let raw = vec![0xFFu8, 0x00, 0x41];
    let mut hex_session = Session::new(RopeBuffer::load_from_bytes(&raw), Some(raw), 80, 24);
    let effect = hex_session.step(SessionCmd::Save);
    assert!(!effect.save_now);
}

#[test]
fn edits_are_rejected_in_hex_mode() {
    let raw = vec![0xFFu8, 0x00, 0x41];
    let mut session = Session::new(RopeBuffer::load_from_bytes(&raw), Some(raw), 80, 24);
    let effect = session.step(SessionCmd::Insert { text: "nope".to_string() });
    assert!(effect.frame.is_none());
    assert!(effect.wal_append.is_none());
    let effect = session.step(SessionCmd::RequestFrame);
    let frame = effect.frame.expect("frame");
    assert_eq!(frame.kind, "hex");
    assert_eq!(
        frame.lines[0].text,
        "FF 00 41                                         |..A"
    );
}

#[test]
fn open_insert_save_undo_save_round_trip() {
    // The literal open/edit/save cycle, with the surrounding process doing
    // the byte transport to and from disk.
    let mut file = tempfile::NamedTempFile::new().unwrap();
    file.as_file_mut().write_all(b"hello").unwrap();
    file.as_file_mut().flush().unwrap();

    let mut bytes = Vec::new();
    file.reopen().unwrap().read_to_end(&mut bytes).unwrap();
    let mut buf = RopeBuffer::load_from_bytes(&bytes);
    let mut undo = UndoStack::new();
    undo.insert(&mut buf, 5, " world");

    let f = file.as_file_mut();
    f.set_len(0).unwrap();
    f.rewind().unwrap();
    f.write_all(&buf.save_bytes()).unwrap();
    f.flush().unwrap();
    let mut on_disk = String::new();
    file.reopen().unwrap().read_to_string(&mut on_disk).unwrap();
    assert_eq!(on_disk, "hello world");

    assert!(undo.undo(&mut buf));
    let f = file.as_file_mut();
    f.set_len(0).unwrap();
    f.rewind().unwrap();
    f.write_all(&buf.save_bytes()).unwrap();
    f.flush().unwrap();
    let mut on_disk = String::new();
    file.reopen().unwrap().read_to_string(&mut on_disk).unwrap();
    assert_eq!(on_disk, "hello");
}

#[test]
fn temp_name_is_a_hidden_sibling() {
    let name = ghostwriter::session::temp_name("notes.txt", 42);
    assert_eq!(name, ".notes.txt.gw.tmp.42");
}
