use ghostwriter::buffer::RopeBuffer;
use ghostwriter::wal::{decode_records, replay_records, EditOp, EditRecord};

#[test]
fn append_and_replay_roundtrip() {
    let rec1 = EditRecord {
        doc_v: 1,
        op: EditOp::Insert { idx: 0, bytes: b"hello".to_vec() },
    };
    let rec2 = EditRecord { doc_v: 2, op: EditOp::Delete { range: 1..3 } };
    let mut stream = rec1.encode();
    stream.extend_from_slice(&rec2.encode());
    let replayed = decode_records(&stream);
    assert_eq!(replayed.len(), 2);
    match &replayed[0].op {
        EditOp::Insert { idx, bytes } => {
            assert_eq!(*idx, 0);
            assert_eq!(bytes, b"hello");
        }
        _ => panic!("expected insert"),
    }
    match &replayed[1].op {
        EditOp::Delete { range } => {
            assert_eq!(range.clone(), 1..3);
        }
        _ => panic!("expected delete"),
    }
}

#[test]
fn crc_corruption_detected() {
    let rec = EditRecord {
        doc_v: 1,
        op: EditOp::Insert { idx: 0, bytes: b"hi".to_vec() },
    };
    let mut data = rec.encode();
    let last = data.len() - 1;
    data[last] ^= 0xFF;
    let replayed = decode_records(&data);
    assert!(replayed.is_empty());
}

#[test]
fn record_layout_is_framed_as_specified() {
    let rec = EditRecord {
        doc_v: 7,
        op: EditOp::Insert { idx: 5, bytes: b"ab".to_vec() },
    };
    let bytes = rec.encode();
    assert_eq!(&bytes[0..4], b"GWAL");
    assert_eq!(bytes[4], 1);
    assert_eq!(&bytes[5..13], &[0, 0, 0, 0, 0, 0, 0, 7]);
    assert_eq!(bytes[13], 1);
    assert_eq!(&bytes[14..18], &[0, 0, 0, 10]);
    assert_eq!(&bytes[18..26], &[0, 0, 0, 0, 0, 0, 0, 5]);
    assert_eq!(&bytes[26..28], b"ab");
    assert_eq!(bytes.len(), 32);
}

#[test]
fn replay_reproduces_edits_and_survives_torn_tail() {
    let rec1 = EditRecord {
        doc_v: 1,
        op: EditOp::Insert { idx: 5, bytes: b" world".to_vec() },
    };
    let rec2 = EditRecord { doc_v: 2, op: EditOp::Delete { range: 0..1 } };
    let mut stream = rec1.encode();
    stream.extend_from_slice(&rec2.encode());

    // Full stream: both edits replay.
    let mut buf = RopeBuffer::from_text("hello");
    replay_records(&mut buf, &decode_records(&stream));
    assert_eq!(buf.text(), "ello world");

    // A torn tail of the second record leaves exactly the first edit.
    for cut in 1..rec2.encode().len() {
        let torn = &stream[..stream.len() - cut];
        let mut buf = RopeBuffer::from_text("hello");
        replay_records(&mut buf, &decode_records(torn));
        assert_eq!(buf.text(), "hello world", "cut of {cut} bytes");
    }
}

#[test]
fn wal_scenario_replays_against_pre_crash_text() {
    // Append Insert{idx=5, " world"} then Delete{0..1}, then crash: the file
    // itself still holds the original text, and replaying the log brings it
    // forward.
    let rec1 = EditRecord {
        doc_v: 1,
        op: EditOp::Insert { idx: 5, bytes: b" world".to_vec() },
    };
    let rec2 = EditRecord { doc_v: 2, op: EditOp::Delete { range: 0..1 } };
    let mut wal_stream = rec1.encode();
    wal_stream.extend_from_slice(&rec2.encode());

    let disk = b"hello".to_vec();
    let mut buf = RopeBuffer::load_from_bytes(&disk);
    assert_eq!(buf.text(), "hello");
    let records = decode_records(&wal_stream);
    assert_eq!(records[0].doc_v, 1);
    assert_eq!(records[1].doc_v, 2);
    replay_records(&mut buf, &records);
    assert_eq!(buf.text(), "ello world");
}

#[test]
fn unknown_record_type_stops_replay() {
    let rec = EditRecord {
        doc_v: 1,
        op: EditOp::Insert { idx: 0, bytes: b"x".to_vec() },
    };
    let mut data = rec.encode();
    data[13] = 9;
    let replayed = decode_records(&data);
    assert!(replayed.is_empty());
}

#[test]
fn record_checksum_is_crc32_of_the_framed_section() {
    // the standard CRC-32 check value, and the record's own checksum field
    assert_eq!(crc32fast::hash(b"123456789"), 0xCBF43926);
    let rec = EditRecord { doc_v: 3, op: EditOp::Delete { range: 2..9 } };
    let bytes = rec.encode();
    let stored = u32::from_be_bytes([
        bytes[bytes.len() - 4],
        bytes[bytes.len() - 3],
        bytes[bytes.len() - 2],
        bytes[bytes.len() - 1],
    ]);
    assert_eq!(stored, crc32fast::hash(&bytes[13..bytes.len() - 4]));
}
