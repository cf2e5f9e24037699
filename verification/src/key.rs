//! The keystroke decoder: turns raw terminal bytes into key events, with
//! ANSI escape sequences for the arrow and delete keys.

use vstd::prelude::*;

verus! {

/// One keystroke event.
#[derive(Clone, Copy, Debug, PartialEq, Eq, Structural)]
pub enum Key {
    Char(char),
    Backspace,
    Tab,
    Newline,
    Delete,
    LeftArrow,
    RightArrow,
    UpArrow,
    DownArrow,
    CtrlL,
    CtrlD,
}

/// What decoding at a position yields: `None` when the buffer ends inside an
/// escape sequence and more bytes are needed; otherwise the decoded key —
/// or no key, for an unrecognised escape sequence — and the position after
/// the consumed bytes.
pub open spec fn key_decode(bytes: Seq<u8>, pos: int) -> Option<(Option<Key>, int)> {
    let b = bytes[pos];
    if b == 0x08 || b == 0x7F {
        Some((Some(Key::Backspace), pos + 1))
    } else if b == 0x0C {
        Some((Some(Key::CtrlL), pos + 1))
    } else if b == 0x04 {
        Some((Some(Key::CtrlD), pos + 1))
    } else if b == 0x1B {
        if pos + 3 > bytes.len() {
            None
        } else if bytes[pos + 1] == 0x5B {
            let c = bytes[pos + 2];
            if c == 0x41 {
                Some((Some(Key::UpArrow), pos + 3))
            } else if c == 0x42 {
                Some((Some(Key::DownArrow), pos + 3))
            } else if c == 0x43 {
                Some((Some(Key::RightArrow), pos + 3))
            } else if c == 0x44 {
                Some((Some(Key::LeftArrow), pos + 3))
            } else if c == 0x33 {
                Some((Some(Key::Delete), pos + 3))
            } else {
                Some((None, pos + 3))
            }
        } else {
            Some((None, pos + 2))
        }
    } else if b == 0x09 {
        Some((Some(Key::Tab), pos + 1))
    } else if b == 0x0A || b == 0x0D {
        Some((Some(Key::Newline), pos + 1))
    } else {
        Some((Some(Key::Char(b as char)), pos + 1))
    }
}

impl Key {
    /// Decodes one keystroke from the byte buffer at the given position.
    /// `0x08` and `0x7F` are Backspace, `0x0C` Ctrl-L, `0x04` Ctrl-D, tab
    /// and the two newline bytes themselves; `0x1B [ A/B/C/D/3` are the
    /// arrows and Delete (an unrecognised third byte is consumed as a
    /// no-op); anything else is a printable character. Returns `None` when
    /// the buffer ends inside an escape sequence.
    pub fn read_key(bytes: &Vec<u8>, pos: usize) -> (r: Option<(Option<Key>, usize)>)
        requires
            pos < bytes@.len(),
        ensures
            match r {
                None => key_decode(bytes@, pos as int) is None,
                Some((k, next)) => key_decode(bytes@, pos as int) == Some((k, next as int))
                    && pos < next <= bytes@.len(),
            },
    {
        let n = bytes.len();
        let b = bytes[pos];
        if b == 0x08 || b == 0x7F {
            Some((Some(Key::Backspace), pos + 1))
        } else if b == 0x0C {
            Some((Some(Key::CtrlL), pos + 1))
        } else if b == 0x04 {
            Some((Some(Key::CtrlD), pos + 1))
        } else if b == 0x1B {
            if bytes.len() - pos < 3 {
                None
            } else if bytes[pos + 1] == 0x5B {
                let c = bytes[pos + 2];
                if c == 0x41 {
                    Some((Some(Key::UpArrow), pos + 3))
                } else if c == 0x42 {
                    Some((Some(Key::DownArrow), pos + 3))
                } else if c == 0x43 {
                    Some((Some(Key::RightArrow), pos + 3))
                } else if c == 0x44 {
                    Some((Some(Key::LeftArrow), pos + 3))
                } else if c == 0x33 {
                    Some((Some(Key::Delete), pos + 3))
                } else {
                    Some((None, pos + 3))
                }
            } else {
                Some((None, pos + 2))
            }
        } else if b == 0x09 {
            Some((Some(Key::Tab), pos + 1))
        } else if b == 0x0A || b == 0x0D {
            Some((Some(Key::Newline), pos + 1))
        } else {
            Some((Some(Key::Char(b as char)), pos + 1))
        }
    }
}

} // verus!
