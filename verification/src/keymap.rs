//! Keymap: a pure function from key events to editor commands.

use vstd::prelude::*;

verus! {

/// A key code, as the terminal layer reports it.
#[derive(Debug, Clone, Copy, PartialEq, Eq, Structural)]
pub enum Key {
    Char(char),
    Enter,
    Tab,
    Backspace,
    Delete,
    Left,
    Right,
    Up,
    Down,
    Esc,
    Home,
    End,
    PageUp,
    PageDown,
    Other,
}

/// A key event: the code with its modifiers.
#[derive(Debug, Clone, Copy, PartialEq, Eq, Structural)]
pub struct KeyInput {
    pub code: Key,
    pub shift: bool,
    pub ctrl: bool,
    pub alt: bool,
}

/// Direction for cursor movement or selection.
#[derive(Debug, Clone, Copy, PartialEq, Eq, Structural)]
pub enum Direction {
    Left,
    Right,
    Up,
    Down,
}

/// High-level editor command derived from a key event.
#[derive(Debug, Clone, PartialEq)]
pub enum Command {
    /// Insert the given text at the cursor position.
    Insert(String),
    /// Delete the character before the cursor.
    DeletePrev,
    /// Delete the character at the cursor.
    DeleteNext,
    /// Move the cursor in the given direction without modifying the selection.
    Move(Direction),
    /// Extend the selection in the given direction.
    Select(Direction),
}

/// Translate a key event into an editor command: a plain character, Enter or
/// Tab insert text; Backspace and Delete delete; arrows move, or select when
/// shifted; everything else has no command.
pub fn map_key_event(ev: KeyInput) -> (r: Option<Command>)
    ensures
        ev.code matches Key::Char(c) ==> if ev.ctrl || ev.alt {
            r is None
        } else {
            r matches Some(cmd) && (cmd matches Command::Insert(s) && s@ == seq![c])
        },
        ev.code == Key::Enter ==> (r matches Some(cmd) && (cmd matches Command::Insert(s) && s@
            == seq!['\n'])),
        ev.code == Key::Tab ==> (r matches Some(cmd) && (cmd matches Command::Insert(s) && s@
            == seq!['\t'])),
        ev.code == Key::Backspace ==> r == Some(Command::DeletePrev),
        ev.code == Key::Delete ==> r == Some(Command::DeleteNext),
        ev.code == Key::Left ==> r == Some(
            if ev.shift {
                Command::Select(Direction::Left)
            } else {
                Command::Move(Direction::Left)
            },
        ),
        ev.code == Key::Right ==> r == Some(
            if ev.shift {
                Command::Select(Direction::Right)
            } else {
                Command::Move(Direction::Right)
            },
        ),
        ev.code == Key::Up ==> r == Some(
            if ev.shift {
                Command::Select(Direction::Up)
            } else {
                Command::Move(Direction::Up)
            },
        ),
        ev.code == Key::Down ==> r == Some(
            if ev.shift {
                Command::Select(Direction::Down)
            } else {
                Command::Move(Direction::Down)
            },
        ),
        (ev.code == Key::Esc || ev.code == Key::Home || ev.code == Key::End || ev.code
            == Key::PageUp || ev.code == Key::PageDown || ev.code == Key::Other) ==> r is None,
{
    match ev.code {
        Key::Char(c) => {
            if ev.ctrl || ev.alt {
                None
            } else {
                Some(Command::Insert(one_char_string(c)))
            }
        },
        Key::Enter => Some(Command::Insert(one_char_string('\n'))),
        Key::Tab => Some(Command::Insert(one_char_string('\t'))),
        Key::Backspace => Some(Command::DeletePrev),
        Key::Delete => Some(Command::DeleteNext),
        Key::Left => Some(
            if ev.shift {
                Command::Select(Direction::Left)
            } else {
                Command::Move(Direction::Left)
            },
        ),
        Key::Right => Some(
            if ev.shift {
                Command::Select(Direction::Right)
            } else {
                Command::Move(Direction::Right)
            },
        ),
        Key::Up => Some(
            if ev.shift {
                Command::Select(Direction::Up)
            } else {
                Command::Move(Direction::Up)
            },
        ),
        Key::Down => Some(
            if ev.shift {
                Command::Select(Direction::Down)
            } else {
                Command::Move(Direction::Down)
            },
        ),
        _ => None,
    }
}

/// A one-character string.
pub fn one_char_string(c: char) -> (r: String)
    ensures
        r@ == seq![c],
{
    let mut v: Vec<char> = Vec::new();
    v.push(c);
    proof {
        assert(v@ =~= seq![c]);
    }
    crate::strutil::chars_to_string(&v)
}

} // verus!
