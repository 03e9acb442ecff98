//! Key handling for the interactive editor: apply a key event to the rope,
//! cursor and selection.

use vstd::prelude::*;

verus! {

use crate::keymap::{Key, KeyInput};
use crate::editor::cursor::{Cursor, norm_eols, spec_line_col_to_index, line_col_to_index,
    normalized_text};
use crate::editor::rope::Rope;
use crate::editor::selection::Selection;

/// Input mode indicating which component should receive events.
#[derive(Debug, Clone, Copy, PartialEq, Eq, Structural)]
pub enum InputMode {
    /// Standard text editing mode.
    Editing,
    /// File picker overlay or other modal component.
    Picker,
}

/// Handles key events and updates editor state accordingly.
#[derive(Debug, Clone, Copy, PartialEq, Eq, Structural)]
pub struct KeyHandler {
    mode: InputMode,
}

/// The rope text after inserting `text` at the cursor's character index,
/// with the rope's clamping.
pub open spec fn inserted_at_cursor(t: Seq<char>, cur: Cursor, ins: Seq<char>, full: Seq<
    char,
>) -> Seq<char> {
    let idx = vstd::math::min(
        spec_line_col_to_index(norm_eols(full), cur.line as int, cur.column as int),
        t.len() as int,
    );
    t.subrange(0, idx) + ins + t.subrange(idx, t.len() as int)
}

impl KeyHandler {
    /// The active mode.
    pub closed spec fn spec_mode(&self) -> InputMode {
        self.mode
    }

    /// Create a new key handler in editing mode.
    pub fn new() -> (r: KeyHandler)
        ensures
            r.spec_mode() == InputMode::Editing,
    {
        KeyHandler { mode: InputMode::Editing }
    }

    /// Set the active input mode.
    pub fn set_mode(&mut self, mode: InputMode)
        ensures
            final(self).spec_mode() == mode,
    {
        self.mode = mode;
    }

    /// Whether the key only moves the cursor.
    pub open spec fn spec_is_navigation(code: Key) -> bool {
        code == Key::Left || code == Key::Right || code == Key::Up || code == Key::Down || code
            == Key::Home || code == Key::End || code == Key::PageUp || code == Key::PageDown
    }

    fn is_navigation(code: Key) -> (r: bool)
        ensures
            r == Self::spec_is_navigation(code),
    {
        match code {
            Key::Left | Key::Right | Key::Up | Key::Down | Key::Home | Key::End | Key::PageUp
                | Key::PageDown => true,
            _ => false,
        }
    }

    /// Handle a key event in editing mode: plain characters, Enter and Tab
    /// insert at the cursor and clear the selection; Backspace deletes the
    /// selection or the character before the cursor; Escape clears the
    /// selection; navigation keys move the cursor, extending the selection
    /// under Shift and clearing it otherwise. Outside editing mode nothing
    /// changes.
    pub fn handle(
        &mut self,
        event: KeyInput,
        rope: &mut Rope,
        cursor: &mut Cursor,
        selection: &mut Option<Selection>,
    )
        requires
            old(rope).wf(),
        ensures
            final(self).spec_mode() == old(self).spec_mode(),
            final(rope).wf(),
            old(self).spec_mode() != InputMode::Editing ==> final(rope).text() == old(rope).text()
                && *final(cursor) == *old(cursor) && *final(selection) == *old(selection),
            old(self).spec_mode() == InputMode::Editing ==> ({
                match event.code {
                    Key::Char(c) => {
                        if !event.ctrl && !event.alt {
                            final(rope).text() == inserted_at_cursor(
                                old(rope).text(),
                                *old(cursor),
                                seq![c],
                                old(rope).text(),
                            ) && *final(selection) is None
                        } else {
                            final(rope).text() == old(rope).text()
                        }
                    },
                    Key::Enter => final(rope).text() == inserted_at_cursor(
                        old(rope).text(),
                        *old(cursor),
                        seq!['\n'],
                        old(rope).text(),
                    ) && *final(selection) is None && final(cursor).line == (if old(cursor).line
                        < usize::MAX {
                        (old(cursor).line + 1) as usize
                    } else {
                        old(cursor).line
                    }) && final(cursor).column == 0,
                    Key::Tab => final(rope).text() == inserted_at_cursor(
                        old(rope).text(),
                        *old(cursor),
                        seq![' ', ' ', ' ', ' '],
                        old(rope).text(),
                    ) && *final(selection) is None,
                    Key::Esc => final(rope).text() == old(rope).text() && *final(selection) is None
                        && *final(cursor) == *old(cursor),
                    Key::Backspace => *final(selection) is None,
                    _ => final(rope).text() == old(rope).text() && (Self::spec_is_navigation(
                        event.code,
                    ) ==> (if event.shift {
                        *final(selection) is Some
                    } else {
                        *final(selection) is None
                    })),
                }
            }),
    {
        if !matches!(self.mode, InputMode::Editing) {
            return ;
        }
        let shift = event.shift;
        let alt = event.alt;
        let ctrl = event.ctrl;
        let prev = *cursor;
        match event.code {
            Key::Char(c) => {
                if !ctrl && !alt {
                    let text = normalized_text(rope);
                    let idx = line_col_to_index(text.as_str(), cursor.line, cursor.column);
                    let s = crate::keymap::one_char_string(c);
                    rope.insert(idx, s.as_str());
                    cursor.move_right(rope);
                    *selection = None;
                }
                return ;
            },
            Key::Enter => {
                let text = normalized_text(rope);
                let idx = line_col_to_index(text.as_str(), cursor.line, cursor.column);
                let s = crate::keymap::one_char_string('\n');
                rope.insert(idx, s.as_str());
                if cursor.line < usize::MAX {
                    cursor.line = cursor.line + 1;
                }
                cursor.column = 0;
                *selection = None;
                return ;
            },
            Key::Tab => {
                let text = normalized_text(rope);
                let idx = line_col_to_index(text.as_str(), cursor.line, cursor.column);
                let four = "    ";
                proof {
                    reveal_strlit("    ");
                }
                rope.insert(idx, four);
                let ghost t2 = rope.text();
                let mut step: usize = 0;
                while step < 4
                    invariant
                        rope.wf(),
                        rope.text() == t2,
                        t2 == inserted_at_cursor(
                            old(rope).text(),
                            *old(cursor),
                            seq![' ', ' ', ' ', ' '],
                            old(rope).text(),
                        ),
                    decreases 4 - step,
                {
                    cursor.move_right(rope);
                    step = step + 1;
                }
                *selection = None;
                return ;
            },
            Key::Backspace => {
                let taken = *selection;
                match taken {
                    Some(sel) => {
                        *selection = None;
                        sel.delete(rope);
                        cursor.validate(rope);
                        return ;
                    },
                    None => {},
                }
                if cursor.line == 0 && cursor.column == 0 {
                    return ;
                }
                cursor.move_left(rope);
                let text = normalized_text(rope);
                let idx = line_col_to_index(text.as_str(), cursor.line, cursor.column);
                let hi = if idx < usize::MAX {
                    idx + 1
                } else {
                    idx
                };
                rope.delete(idx..hi);
                return ;
            },
            Key::Esc => {
                *selection = None;
                return ;
            },
            Key::Left => {
                if alt {
                    cursor.move_prev_word(rope);
                } else {
                    cursor.move_left(rope);
                }
            },
            Key::Right => {
                if alt {
                    cursor.move_next_word(rope);
                } else {
                    cursor.move_right(rope);
                }
            },
            Key::Up => {
                cursor.move_up(rope);
            },
            Key::Down => {
                cursor.move_down(rope);
            },
            Key::Home => {
                if alt || ctrl {
                    cursor.move_doc_start();
                } else {
                    cursor.move_line_start();
                }
            },
            Key::End => {
                if alt || ctrl {
                    cursor.move_doc_end(rope);
                } else {
                    cursor.move_line_end(rope);
                }
            },
            Key::PageUp => {
                let mut step: usize = 0;
                while step < 10
                    invariant
                        rope.wf(),
                        rope.text() == old(rope).text(),
                    decreases 10 - step,
                {
                    cursor.move_up(rope);
                    step = step + 1;
                }
            },
            Key::PageDown => {
                let mut step: usize = 0;
                while step < 10
                    invariant
                        rope.wf(),
                        rope.text() == old(rope).text(),
                    decreases 10 - step,
                {
                    cursor.move_down(rope);
                    step = step + 1;
                }
            },
            _ => {
                return ;
            },
        }
        if Self::is_navigation(event.code) {
            if shift {
                match selection {
                    Some(sel) => {
                        sel.extend(*cursor);
                    },
                    None => {
                        *selection = Some(Selection { start: prev, end: *cursor });
                    },
                }
            } else {
                *selection = None;
            }
        }
    }
}

} // verus!
