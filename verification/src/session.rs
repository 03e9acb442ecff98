//! Session state machine: one open document, its selection and viewport, and
//! the effects each command produces. The surrounding process runs the actor
//! loop, performs the returned effects (frame sends, WAL appends, saves) and
//! feeds the next command back in.

use vstd::prelude::*;

verus! {

use vstd::utf8::{encode_utf8, is_char_boundary, is_char_boundary_start_end_of_seq};
use crate::buffer::RopeBuffer;
use crate::proto::Frame;
use crate::wal::{EditRecord, EditOp, EditRecordV, EditOpV, record_wf};
use crate::undo::splice_in;

/// Commands that can be sent to the session actor.
pub enum SessionCmd {
    /// Insert `text` at the current cursor position.
    Insert { text: String },
    /// Request the current frame without modifying state.
    RequestFrame,
    /// Save the current buffer to disk immediately.
    Save,
}

/// What one command asks the surrounding process to do.
pub struct SessionEffect {
    /// A frame to send to the client.
    pub frame: Option<Frame>,
    /// Save the buffer now.
    pub save_now: bool,
    /// Schedule a debounced save.
    pub schedule_save: bool,
    /// Append this record to the write-ahead log.
    pub wal_append: Option<EditRecord>,
}

/// The session: one buffer (or raw bytes in hex mode), a selection, a
/// viewport and a document version.
pub struct Session {
    buffer: RopeBuffer,
    hex_bytes: Option<Vec<u8>>,
    doc_v: u64,
    sel_start: usize,
    sel_end: usize,
    cols: u16,
    rows: u16,
    first_line: usize,
    hscroll: usize,
    status: String,
}

impl Session {
    /// The buffer text.
    pub closed spec fn text(&self) -> Seq<u8> {
        self.buffer.bytes()
    }

    /// The document version.
    pub closed spec fn spec_doc_v(&self) -> u64 {
        self.doc_v
    }

    /// The selection as a byte range.
    pub closed spec fn sel(&self) -> (usize, usize) {
        (self.sel_start, self.sel_end)
    }

    /// Whether the session shows a hex view of undecodable bytes.
    pub closed spec fn is_hex(&self) -> bool {
        self.hex_bytes is Some
    }

    /// The buffer's end-of-line style.
    pub closed spec fn spec_eol(&self) -> crate::buffer::Eol {
        self.buffer.spec_eol()
    }

    /// The viewport: columns, rows, and the first visible line.
    pub closed spec fn spec_viewport(&self) -> (u16, u16, usize) {
        (self.cols, self.rows, self.first_line)
    }

    /// Session well-formedness: the buffer is valid UTF-8, the selection is
    /// an in-range byte range on character boundaries, and sizes leave room
    /// for the viewport arithmetic.
    pub closed spec fn wf(&self) -> bool {
        &&& self.buffer.wf()
        &&& self.sel_start <= self.sel_end <= self.buffer.bytes().len()
        &&& is_char_boundary(self.buffer.bytes(), self.sel_start as int)
        &&& is_char_boundary(self.buffer.bytes(), self.sel_end as int)
        &&& self.buffer.bytes().len() + 16 < usize::MAX
        &&& self.first_line + 0x10000 <= usize::MAX
        &&& (self.hex_bytes matches Some(h) ==> h@.len() + 16 <= usize::MAX)
    }

    /// Create a session over a loaded buffer; `hex_bytes` carries the raw
    /// file bytes when the file was not valid UTF-8.
    pub fn new(buffer: RopeBuffer, hex_bytes: Option<Vec<u8>>, cols: u16, rows: u16) -> (r:
        Session)
        requires
            buffer.wf(),
            buffer.bytes().len() + 16 < usize::MAX,
            hex_bytes matches Some(h) ==> h@.len() + 16 <= usize::MAX,
        ensures
            r.wf(),
            r.text() == buffer.bytes(),
            r.spec_doc_v() == 0,
            r.sel() == (0usize, 0usize),
            r.is_hex() == (hex_bytes is Some),
    {
        proof {
            is_char_boundary_start_end_of_seq(buffer.bytes());
        }
        let status = "server";
        Session {
            buffer,
            hex_bytes,
            doc_v: 0,
            sel_start: 0,
            sel_end: 0,
            cols,
            rows,
            first_line: 0,
            hscroll: 0,
            status: status.to_owned(),
        }
    }

    /// Whether an insert of `text` is accepted in the current state: the
    /// session must be in editor mode with room for the text and a further
    /// version number.
    pub open spec fn accepts_insert(&self, text: Seq<char>) -> bool {
        &&& !self.is_hex()
        &&& self.text().len() + encode_utf8(text).len() + 16 < usize::MAX
        &&& encode_utf8(text).len() + 8 < 0x100000000
        &&& self.spec_doc_v() < u64::MAX
    }

    /// Process one command and report the effects the caller must perform.
    ///
    /// An insert goes in at the end of the selection, collapses the selection
    /// after the inserted text, bumps the document version, logs a WAL
    /// record, schedules a debounced save and emits a frame. In hex mode
    /// every edit is rejected. A frame request emits the current frame
    /// without changing state; a save request asks for an immediate save in
    /// editor mode.
    pub fn step(&mut self, cmd: SessionCmd) -> (r: SessionEffect)
        requires
            old(self).wf(),
        ensures
            final(self).wf(),
            match cmd {
                SessionCmd::Insert { text } => {
                    if old(self).accepts_insert(text@) {
                        &&& final(self).text() == splice_in(
                            old(self).text(),
                            old(self).sel().1 as int,
                            encode_utf8(text@),
                        )
                        &&& final(self).spec_doc_v() == old(self).spec_doc_v() + 1
                        &&& final(self).sel().0 == final(self).sel().1
                        &&& final(self).sel().1 == old(self).sel().1 + encode_utf8(text@).len()
                        &&& r.frame matches Some(f) && f.doc_v == final(self).spec_doc_v()
                            && f.kind@ == "editor"@
                        &&& r.wal_append matches Some(w) && w@ == (EditRecordV {
                            doc_v: (old(self).spec_doc_v() + 1) as u64,
                            op: EditOpV::Insert {
                                idx: old(self).sel().1 as u64,
                                bytes: encode_utf8(text@),
                            },
                        }) && record_wf(w@)
                        &&& r.schedule_save
                        &&& !r.save_now
                    } else {
                        &&& final(self).text() == old(self).text()
                        &&& final(self).spec_doc_v() == old(self).spec_doc_v()
                        &&& final(self).sel() == old(self).sel()
                        &&& r.frame is None
                        &&& r.wal_append is None
                        &&& !r.save_now
                        &&& !r.schedule_save
                    }
                },
                SessionCmd::RequestFrame => {
                    &&& final(self).text() == old(self).text()
                    &&& final(self).spec_doc_v() == old(self).spec_doc_v()
                    &&& final(self).sel() == old(self).sel()
                    &&& r.frame matches Some(f) && f.doc_v == old(self).spec_doc_v() && f.kind@
                        == (if old(self).is_hex() {
                        "hex"@
                    } else {
                        "editor"@
                    })
                    &&& r.wal_append is None
                    &&& !r.save_now
                    &&& !r.schedule_save
                },
                SessionCmd::Save => {
                    &&& final(self).text() == old(self).text()
                    &&& final(self).spec_doc_v() == old(self).spec_doc_v()
                    &&& final(self).sel() == old(self).sel()
                    &&& r.frame is None
                    &&& r.wal_append is None
                    &&& r.save_now == !old(self).is_hex()
                    &&& !r.schedule_save
                },
            },
    {
        match cmd {
            SessionCmd::Insert { text } => {
                let is_hex_mode = match &self.hex_bytes {
                    Some(_) => true,
                    None => false,
                };
                let tb = text.as_str().as_bytes();
                let tlen = tb.len();
                let n = self.buffer.len_bytes();
                if is_hex_mode || tlen >= usize::MAX - 16 - n || !((tlen as u64) + 8
                    < 0x100000000u64) || self.doc_v == u64::MAX {
                    return SessionEffect {
                        frame: None,
                        save_now: false,
                        schedule_save: false,
                        wal_append: None,
                    };
                }
                let pos = self.sel_end;
                let old_doc_v = self.doc_v;
                self.buffer.insert(pos, text.as_str());
                let new_pos = pos + tlen;
                self.sel_start = new_pos;
                self.sel_end = new_pos;
                self.doc_v = old_doc_v + 1;
                proof {
                    vstd::utf8::valid_utf8_split(old(self).text(), pos as int);
                    vstd::utf8::encode_utf8_valid_utf8(text@);
                    vstd::utf8::valid_utf8_concat(
                        old(self).text().subrange(0, pos as int),
                        encode_utf8(text@),
                    );
                    crate::undo::lemma_boundary_at_concat(
                        old(self).text().subrange(0, pos as int) + encode_utf8(text@),
                        old(self).text().subrange(pos as int, old(self).text().len() as int),
                    );
                    assert(self.buffer.bytes() =~= (old(self).text().subrange(0, pos as int)
                        + encode_utf8(text@)) + old(self).text().subrange(
                        pos as int,
                        old(self).text().len() as int,
                    ));
                }
                let record = EditRecord {
                    doc_v: self.doc_v,
                    op: EditOp::Insert { idx: pos as u64, bytes: vstd::slice::slice_to_vec(tb) },
                };
                proof {
                    crate::wal::lemma_be_bytes_len(pos as int, 8);
                    assert(record@ =~~= (EditRecordV {
                        doc_v: (old(self).spec_doc_v() + 1) as u64,
                        op: EditOpV::Insert {
                            idx: old(self).sel().1 as u64,
                            bytes: encode_utf8(text@),
                        },
                    }));
                }
                let frame = self.emit_frame();
                SessionEffect {
                    frame: Some(frame),
                    save_now: false,
                    schedule_save: true,
                    wal_append: Some(record),
                }
            },
            SessionCmd::RequestFrame => {
                let frame = self.emit_frame();
                SessionEffect {
                    frame: Some(frame),
                    save_now: false,
                    schedule_save: false,
                    wal_append: None,
                }
            },
            SessionCmd::Save => {
                let save = match &self.hex_bytes {
                    Some(_) => false,
                    None => true,
                };
                SessionEffect { frame: None, save_now: save, schedule_save: false, wal_append: None }
            },
        }
    }

    /// Compose the current frame: a hex frame over the raw bytes in hex
    /// mode, an editor frame over the buffer otherwise.
    pub fn emit_frame(&self) -> (r: Frame)
        requires
            self.wf(),
        ensures
            r.doc_v == self.spec_doc_v(),
            r.kind@ == (if self.is_hex() {
                "hex"@
            } else {
                "editor"@
            }),
            r.cols == self.spec_viewport().0,
            r.rows == self.spec_viewport().1,
            r.first_line == self.spec_viewport().2 as u64,
    {
        match &self.hex_bytes {
            Some(data) => crate::hex::compose_hex(
                data.as_slice(),
                self.first_line,
                self.cols,
                self.rows,
                self.doc_v,
                self.status.as_str(),
                "",
            ),
            None => crate::viewport::compose(
                &self.buffer,
                self.first_line,
                self.cols,
                self.rows,
                self.hscroll,
                Some(self.sel_start..self.sel_end),
                &make_cursor_vec(self.sel_end),
                self.doc_v,
                self.status.as_str(),
                "",
            ),
        }
    }

    /// The buffer's bytes for saving, in the remembered EOL style.
    pub fn save_bytes(&self) -> (r: Vec<u8>)
        requires
            self.wf(),
        ensures
            self.spec_eol() == crate::buffer::Eol::Lf ==> r@ == self.text(),
            self.spec_eol() == crate::buffer::Eol::CrLf ==> r@ == crate::buffer::expand_crlf(
                self.text(),
            ),
    {
        self.buffer.save_bytes()
    }

    /// The current text as a string.
    pub fn text_string(&self) -> (r: String)
        requires
            self.wf(),
        ensures
            encode_utf8(r@) == self.text(),
    {
        self.buffer.text()
    }
}

/// A one-element cursor list for the caret.
fn make_cursor_vec(pos: usize) -> (r: Vec<usize>)
    ensures
        r@ == seq![pos],
{
    let mut v: Vec<usize> = Vec::new();
    v.push(pos);
    proof {
        assert(v@ =~= seq![pos]);
    }
    v
}


/// The temp-file name the atomic writer uses beside the target: a hidden
/// sibling carrying the target's name and a nonce.
pub fn temp_name(name: &str, nonce: u64) -> (r: String)
    ensures
        r@ == seq!['.'] + name@ + ".gw.tmp."@ + crate::strutil::dec_rep(nonce as int),
{
    let mut chars: Vec<char> = Vec::new();
    chars.push('.');
    let name_chars = crate::strutil::str_to_chars(name);
    let n = name_chars.len();
    let mut i: usize = 0;
    while i < n
        invariant
            i <= n,
            n == name_chars@.len(),
            name_chars@ == name@,
            chars@ == seq!['.'] + name@.subrange(0, i as int),
        decreases n - i,
    {
        chars.push(name_chars[i]);
        proof {
            assert(chars@ =~= seq!['.'] + name@.subrange(0, i as int + 1));
        }
        i = i + 1;
    }
    proof {
        assert(name@.subrange(0, n as int) =~= name@);
        reveal_strlit(".gw.tmp.");
    }
    chars.push('.');
    chars.push('g');
    chars.push('w');
    chars.push('.');
    chars.push('t');
    chars.push('m');
    chars.push('p');
    chars.push('.');
    proof {
        assert(chars@ =~= seq!['.'] + name@ + ".gw.tmp."@);
    }
    crate::strutil::push_dec(&mut chars, nonce);
    crate::strutil::chars_to_string(&chars)
}

} // verus!
