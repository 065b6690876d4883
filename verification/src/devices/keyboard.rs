use vstd::prelude::*;

use crate::chars::str_eq;
use crate::keymap::KeyEq;

verus! {

/// One keyboard input event, as the plain-named configuration dialect
/// describes it.
#[derive(Debug, Copy, Clone, Eq, PartialEq, Hash, Structural)]
pub enum KeyStroke {
    Char(char),
    KeyF(u32),
    Alt(char),
    KeyUp,
    KeyDown,
    KeyLeft,
    KeyRight,
    KeyPreviousPage,
    KeyNextPage,
    KeyEscape,
    KeyBackSpace,
    KeyDeleteChar,
}

/// The keystroke a plain-named description stands for: a single character
/// stands for itself, the bare names stand for the special keys.
pub open spec fn spec_keystroke_of(s: Seq<char>) -> Option<KeyStroke> {
    if s.len() == 1 {
        Some(KeyStroke::Char(s[0]))
    } else if s == "f1"@ {
        Some(KeyStroke::KeyF(1))
    } else if s == "key_up"@ {
        Some(KeyStroke::KeyUp)
    } else if s == "key_down"@ {
        Some(KeyStroke::KeyDown)
    } else if s == "key_left"@ {
        Some(KeyStroke::KeyLeft)
    } else if s == "key_right"@ {
        Some(KeyStroke::KeyRight)
    } else if s == "page_up"@ {
        Some(KeyStroke::KeyPreviousPage)
    } else if s == "page_down"@ {
        Some(KeyStroke::KeyNextPage)
    } else if s == "backspace"@ {
        Some(KeyStroke::KeyBackSpace)
    } else {
        None
    }
}

impl KeyStroke {
    /// Parses a plain-named configuration description into a keystroke.
    pub fn from_description(description: &str) -> (r: Option<Self>)
        ensures
            r == spec_keystroke_of(description@),
    {
        if description.unicode_len() == 1 {
            return Some(KeyStroke::Char(description.get_char(0)));
        }
        if str_eq(description, "f1") {
            Some(KeyStroke::KeyF(1))
        } else if str_eq(description, "key_up") {
            Some(KeyStroke::KeyUp)
        } else if str_eq(description, "key_down") {
            Some(KeyStroke::KeyDown)
        } else if str_eq(description, "key_left") {
            Some(KeyStroke::KeyLeft)
        } else if str_eq(description, "key_right") {
            Some(KeyStroke::KeyRight)
        } else if str_eq(description, "page_up") {
            Some(KeyStroke::KeyPreviousPage)
        } else if str_eq(description, "page_down") {
            Some(KeyStroke::KeyNextPage)
        } else if str_eq(description, "backspace") {
            Some(KeyStroke::KeyBackSpace)
        } else {
            None
        }
    }
}

impl KeyEq for KeyStroke {
    fn key_eq(&self, other: &Self) -> (r: bool) {
        *self == *other
    }
}

} // verus!
