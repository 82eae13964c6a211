//! Decoder for the bytes that the keyboard sends, from scancodes to
//! characters.

use vstd::prelude::*;

verus! {

/// What the digit keys give while shift is held, from the key `1` to the
/// key `0`.
pub const SHIFT_SYMBOLS: [char; 10] = ['!', '"', '#', '\u{a4}', '%', '&', '/', '(', ')', '='];

/// The letters of the three rows of the keyboard, row by row from the left.
pub const KEYROWS: [char; 26] = [
    'Q', 'W', 'E', 'R', 'T', 'Y', 'U', 'I', 'O', 'P',
    'A', 'S', 'D', 'F', 'G', 'H', 'J', 'K', 'L',
    'Z', 'X', 'C', 'V', 'B', 'N', 'M',
];

/// Whether the decoder is in the middle of a two-byte code.
#[derive(Debug, Clone, Copy, PartialEq, Eq, Structural)]
enum State {
    /// The next byte starts a code.
    Ground,
    /// The byte before was the prefix `0xe0`.
    Await,
}

/// What the decoder remembers between bytes.
pub struct Modifiers {
    /// Shift is held.
    pub shift: bool,
    /// Alt-graph is held.
    pub altgr: bool,
    /// The byte before was the prefix `0xe0`.
    pub awaiting: bool,
}

/// The small letter of a capital ASCII letter; any other character itself.
pub open spec fn lowercase(c: char) -> char {
    if 'A' <= c <= 'Z' {
        ((c as u8) + 32) as char
    } else {
        c
    }
}

/// What a byte does to the modifiers, and whether that is all it does:
/// the prefix, the codes of shift and, after the prefix, those of alt-graph
/// give no character. Any byte after the prefix ends the two-byte code.
pub open spec fn modify(m: Modifiers, byte: u8) -> (Modifiers, bool) {
    if m.awaiting {
        if byte == 0x38 {
            (Modifiers { altgr: true, awaiting: false, ..m }, true)
        } else if byte == 0xb8 {
            (Modifiers { altgr: false, awaiting: false, ..m }, true)
        } else {
            (Modifiers { awaiting: false, ..m }, false)
        }
    } else {
        if byte == 0xe0 {
            (Modifiers { awaiting: true, ..m }, true)
        } else if byte == 0x2a {
            (Modifiers { shift: true, ..m }, true)
        } else if byte == 0xaa {
            (Modifiers { shift: false, ..m }, true)
        } else {
            (m, false)
        }
    }
}

/// The letter at place `index` of the rows, capital while shift is held.
pub open spec fn letter(index: int, shift: bool) -> char {
    if shift {
        KEYROWS[index]
    } else {
        lowercase(KEYROWS[index])
    }
}

/// The character of a key, by the code that the key sends when pressed.
/// Codes of keys that give no character have none.
pub open spec fn key(byte: u8, shift: bool) -> Option<char> {
    if byte == 0x01 {
        Some('\x1b')
    } else if byte == 0x0e {
        Some('\x08')
    } else if byte == 0x1c {
        Some('\n')
    } else if byte == 0x39 {
        Some(' ')
    } else if 0x02 <= byte <= 0x0a {
        if shift {
            Some(SHIFT_SYMBOLS[byte - 2])
        } else {
            Some((byte + 47) as char)
        }
    } else if byte == 0x0b {
        if shift {
            Some('=')
        } else {
            Some('0')
        }
    } else if byte == 0x0c {
        if shift {
            Some('?')
        } else {
            Some('+')
        }
    } else if byte == 0x35 {
        if shift {
            Some('_')
        } else {
            Some('-')
        }
    } else if byte == 0x0d {
        Some('\\')
    } else if 0x10 <= byte <= 0x19 {
        Some(letter(byte - 0x10, shift))
    } else if 0x1e <= byte <= 0x26 {
        Some(letter(byte - 0x1e + 0xa, shift))
    } else if 0x2c <= byte <= 0x32 {
        Some(letter(byte - 0x2c + 0x13, shift))
    } else {
        None
    }
}

/// The decoder: it is fed the bytes one by one and gives a character for
/// each byte that completes one.
pub struct Scancodes {
    shift: bool,
    altgr: bool,
    state: State,
}

impl View for Scancodes {
    type V = Modifiers;

    closed spec fn view(&self) -> Modifiers {
        Modifiers { shift: self.shift, altgr: self.altgr, awaiting: self.state == State::Await }
    }
}

/// The small letter of a capital ASCII letter; any other character itself.
fn to_lowercase(c: char) -> (small: char)
    ensures
        small == lowercase(c),
{
    if 'A' <= c && c <= 'Z' {
        let code: u8 = c as u8;
        (code + 32) as char
    } else {
        c
    }
}

impl Scancodes {
    /// A decoder with no modifier held.
    pub fn new() -> (scancodes: Scancodes)
        ensures
            scancodes@ == (Modifiers { shift: false, altgr: false, awaiting: false }),
    {
        Scancodes { shift: false, altgr: false, state: State::Ground }
    }

    /// Takes the bytes that only change what the decoder remembers.
    fn handle_special(&mut self, byte: u8) -> (handled: bool)
        ensures
            (final(self)@, handled) == modify(old(self)@, byte),
    {
        match self.state {
            State::Ground => {
                match byte {
                    0xe0 => self.state = State::Await,
                    0x2a => self.shift = true,
                    0xaa => self.shift = false,
                    _ => return false,
                }
            },
            State::Await => {
                self.state = State::Ground;
                match byte {
                    0x38 => self.altgr = true,
                    0xb8 => self.altgr = false,
                    _ => return false,
                }
            },
        }
        true
    }

    /// The letter at place `index` of the rows.
    fn keyrow(&mut self, index: usize) -> (c: char)
        requires
            index < 26,
        ensures
            c == letter(index as int, old(self)@.shift),
            final(self)@ == old(self)@,
    {
        if self.shift {
            KEYROWS[index]
        } else {
            to_lowercase(KEYROWS[index])
        }
    }

    /// Feeds one byte to the decoder.
    ///
    /// A byte that only changes the modifiers gives nothing. Any other byte
    /// gives the character of its key, if the key has one.
    pub fn advance(&mut self, byte: u8) -> (character: Option<char>)
        ensures
            final(self)@ == modify(old(self)@, byte).0,
            character == if modify(old(self)@, byte).1 {
                None
            } else {
                key(byte, final(self)@.shift)
            },
    {
        if !self.handle_special(byte) {
            match byte {
                0x01 => Some('\x1b'),
                0x0e => Some('\x08'),
                0x1c => Some('\n'),
                0x39 => Some(' '),
                0x02..=0x0a => {
                    if self.shift {
                        Some(SHIFT_SYMBOLS[byte as usize - 2])
                    } else {
                        Some(((byte - 1) + 48) as char)
                    }
                },
                0x0b => if self.shift {
                    Some('=')
                } else {
                    Some('0')
                },
                0x0c => if self.shift {
                    Some('?')
                } else {
                    Some('+')
                },
                0x35 => if self.shift {
                    Some('_')
                } else {
                    Some('-')
                },
                0x0d => Some('\\'),
                0x10..=0x19 => Some(self.keyrow(byte as usize - 0x10)),
                0x1e..=0x26 => Some(self.keyrow((byte as usize - 0x1e) + 0xa)),
                0x2c..=0x32 => Some(self.keyrow((byte as usize - 0x2c) + 0x13)),
                _ => None,
            }
        } else {
            None
        }
    }
}

} // verus!
