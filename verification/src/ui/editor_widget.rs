//! The editor widget model: what the text area renders from.

use vstd::prelude::*;

verus! {

use crate::editor::cursor::Cursor;
use crate::editor::rope::Rope;
use crate::editor::selection::Selection;

/// The mutable state the widget renders with.
#[derive(Debug, Clone, Copy, PartialEq, Eq, Structural)]
pub struct EditorState {
    pub cursor: Cursor,
    pub selection: Option<Selection>,
    pub scroll_x: u16,
    pub scroll_y: u16,
}

/// The widget: a view over the rope being edited.
pub struct EditorWidget<'a> {
    rope: &'a Rope,
}

impl<'a> EditorWidget<'a> {
    /// The rope the widget shows.
    pub closed spec fn spec_rope(&self) -> &'a Rope {
        self.rope
    }

    /// Create a widget over the rope.
    pub fn new(rope: &'a Rope) -> (r: EditorWidget<'a>)
        ensures
            r.spec_rope() == rope,
    {
        EditorWidget { rope }
    }
}

} // verus!
