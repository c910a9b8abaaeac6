//! Key presses, and the moves that they stand for.

use vstd::prelude::*;

verus! {

/// The key of a key press, as far as the list tells keys apart.
#[derive(Debug, Clone, Copy, PartialEq, Eq)]
pub enum Key {
    /// The arrow that points up.
    Up,
    /// The arrow that points down.
    Down,
    /// A character key.
    Char(char),
    /// Any other key.
    Other,
}

/// A key together with the modifier keys that were held with it.
#[derive(Debug, Clone, Copy, PartialEq, Eq)]
pub struct KeyPress {
    /// The key.
    pub key: Key,
    /// Whether shift was held.
    pub shift: bool,
    /// Whether control was held.
    pub control: bool,
    /// Whether alt was held.
    pub alt: bool,
}

/// A step of the selection.
#[derive(Debug, Clone, Copy, PartialEq, Eq)]
pub enum Move {
    /// To the entry below.
    Down,
    /// To the entry above.
    Up,
}

/// The character that moves down when control is held.
pub const DOWN_LETTER: char = 'n';

/// The character that moves up when control is held.
pub const UP_LETTER: char = 'p';

/// Whether no modifier key was held.
pub open spec fn is_bare(press: KeyPress) -> bool {
    !press.shift && !press.control && !press.alt
}

/// Whether control was held and no other modifier key.
pub open spec fn is_control_only(press: KeyPress) -> bool {
    !press.shift && press.control && !press.alt
}

/// The move that a key press stands for: the arrows alone, and the two
/// letters with control alone, move; nothing else does.
pub open spec fn move_of(press: KeyPress) -> Option<Move> {
    match press.key {
        Key::Down => if is_bare(press) {
            Some(Move::Down)
        } else {
            None
        },
        Key::Up => if is_bare(press) {
            Some(Move::Up)
        } else {
            None
        },
        Key::Char(c) => if is_control_only(press) && c == DOWN_LETTER {
            Some(Move::Down)
        } else if is_control_only(press) && c == UP_LETTER {
            Some(Move::Up)
        } else {
            None
        },
        Key::Other => None,
    }
}

/// Looks up the move that a key press stands for.
pub fn key_move(press: KeyPress) -> (step: Option<Move>)
    ensures
        step == move_of(press),
{
    let bare = !press.shift && !press.control && !press.alt;
    let control_only = !press.shift && press.control && !press.alt;
    match press.key {
        Key::Down => if bare {
            Some(Move::Down)
        } else {
            None
        },
        Key::Up => if bare {
            Some(Move::Up)
        } else {
            None
        },
        Key::Char(c) => if control_only && c == DOWN_LETTER {
            Some(Move::Down)
        } else if control_only && c == UP_LETTER {
            Some(Move::Up)
        } else {
            None
        },
        Key::Other => None,
    }
}

} // verus!
