//! Message kinds of the workspace protocol and the connection state shown
//! for a remote document.

use vstd::prelude::*;

verus! {

use crate::files::search::SearchResult;
use crate::workspace::DirEntryInfo;

/// The state of the connection to a remote server.
#[derive(Debug, Clone, Copy, PartialEq, Eq, Structural)]
pub enum ConnectionStatus {
    Connected,
    Reconnecting,
    Disconnected,
}

/// Variants of workspace protocol messages.
#[derive(Debug, Clone, PartialEq)]
pub enum MessageKind {
    /// Client initiates authentication with optional key.
    AuthRequest { key: Option<String> },
    /// Server replies with authentication result.
    AuthResponse { success: bool, reason: Option<String> },
    /// Simple ping to keep connection alive.
    Ping,
    /// Response to `Ping` messages.
    Pong,
    /// Error message with human readable context.
    Error { context: String },
    /// Request to read a file within the workspace.
    FileReadRequest { path: String },
    /// Response containing file data if successful.
    FileReadResponse { success: bool, data: Option<Vec<u8>>, reason: Option<String> },
    /// Request to write data to a file.
    FileWriteRequest { path: String, data: Vec<u8> },
    /// Response to a file write request.
    FileWriteResponse { success: bool, reason: Option<String> },
    /// Request directory listing.
    DirListRequest { path: String },
    /// Response with directory entries.
    DirListResponse { entries: Option<Vec<DirEntryInfo>>, reason: Option<String> },
    /// Request to lock a file.
    LockRequest { path: String },
    /// Response to lock request.
    LockResponse { success: bool, readonly: bool, reason: Option<String> },
    /// Search for content across workspace files.
    SearchRequest { pattern: String, regex: bool, case_sensitive: bool },
    /// Response to content search request.
    SearchResponse { matches: Option<Vec<SearchResult>>, reason: Option<String> },
}

} // verus!
