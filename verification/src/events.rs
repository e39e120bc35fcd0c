//! The decoded input events that interactive widgets consume. Decoding raw
//! terminal bytes into these events is an external collaborator's job; the
//! core only requires this typed enumeration.

use vstd::prelude::*;

verus! {

/// A decoded key press. Enter arrives as `Char('\n')` and Tab as
/// `Char('\t')`, as the terminal delivers them.
pub enum Key {
    Char(char),
    Backspace,
    Delete,
    Esc,
    Up,
    Down,
    Left,
    Right,
    BackTab,
}

/// One decoded terminal input event. Events the core does not interpret
/// (mouse reports, unrecognised sequences) arrive as `Other`.
pub enum Event {
    Key(Key),
    Other,
}

} // verus!
