//! Protocol types: typed envelopes and the payloads they carry.

use vstd::prelude::*;

verus! {

pub const PROTOCOL_VERSION: u16 = 1;

/// A protocol message: version, tag, payload.
#[derive(Debug, Clone, PartialEq)]
pub struct Envelope<T> {
    pub v: u16,
    pub ty: MessageType,
    pub data: T,
}

impl<T> Envelope<T> {
    /// Wrap a payload under the current protocol version.
    pub fn new(ty: MessageType, data: T) -> (r: Envelope<T>)
        ensures
            r.v == PROTOCOL_VERSION,
            r.ty == ty,
            r.data == data,
    {
        Envelope { v: PROTOCOL_VERSION, ty, data }
    }
}

/// Message tags.
#[derive(Debug, Clone, Copy, PartialEq, Eq, Structural)]
pub enum MessageType {
    Hello,
    Auth,
    Open,
    Insert,
    Delete,
    Move,
    Select,
    Copy,
    Scroll,
    Resize,
    Search,
    GotoLine,
    DuplicateLine,
    DeleteLine,
    Save,
    RequestFrame,
    PickerAction,
    Ack,
    Frame,
    Dirty,
    Status,
    Dialog,
    Error,
    Ping,
    Pong,
}

/// Error codes carried on the wire.
#[derive(Debug, Clone, Copy, PartialEq, Eq, Structural)]
pub enum ErrorCode {
    Busy,
    Unauthorized,
    RateLimit,
    ProtocolError,
}

/// Client greeting.
#[derive(Debug, Clone, PartialEq)]
pub struct Hello {
    pub client_name: String,
    pub client_ver: String,
    pub cols: u16,
    pub rows: u16,
    pub truecolor: bool,
}

/// Authentication secret.
#[derive(Debug, Clone, PartialEq)]
pub struct Auth {
    pub secret: String,
}

/// Acknowledgement of a client edit.
#[derive(Debug, Clone, PartialEq)]
pub struct Ack {
    pub seq: u64,
    pub doc_v: u64,
}

/// A byte range on the wire.
#[derive(Debug, Clone, PartialEq)]
pub struct Range {
    pub from: u64,
    pub to: u64,
}

/// An insert command.
#[derive(Debug, Clone, PartialEq)]
pub struct Insert {
    pub pos: u64,
    pub text: String,
    pub seq: u64,
}

/// Text copied out of a selection.
#[derive(Debug, Clone, PartialEq)]
pub struct Copy {
    pub text: String,
}

/// A frame request with its reason.
#[derive(Debug, Clone, PartialEq)]
pub struct RequestFrame {
    pub reason: String,
}

/// A viewport resize.
#[derive(Debug, Clone, PartialEq)]
pub struct Resize {
    pub cols: u16,
    pub rows: u16,
}

/// An error envelope payload.
#[derive(Debug, Clone, PartialEq)]
pub struct ErrorMsg {
    pub code: ErrorCode,
    pub msg: String,
}

/// A styled column range within one line.
#[derive(Debug, Clone, PartialEq)]
pub struct StyleSpan {
    pub start_col: u16,
    pub end_col: u16,
    pub class_name: String,
}

/// One rendered line with its style spans.
#[derive(Debug, Clone, PartialEq)]
pub struct Line {
    pub text: String,
    pub spans: Vec<StyleSpan>,
}

/// A cursor in absolute buffer coordinates.
#[derive(Debug, Clone, PartialEq)]
pub struct Cursor {
    pub line: u64,
    pub col: u16,
}

/// A rendering snapshot of the viewport.
#[derive(Debug, Clone, PartialEq)]
pub struct Frame {
    pub id: String,
    pub kind: String,
    pub doc_v: u64,
    pub first_line: u64,
    pub cols: u16,
    pub rows: u16,
    pub lines: Vec<Line>,
    pub cursors: Vec<Cursor>,
    pub status_left: String,
    pub status_right: String,
}

} // verus!
