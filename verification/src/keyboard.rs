//! The keyboard decoder: from raw key-transition codes to characters and
//! control actions.
//!
//! A code with bit 7 clear reports a key going down, the same code with bit 7
//! set reports it coming up, and code 0 reports nothing new. The keyboard is
//! polled, so a key that is held down shows the same code poll after poll.

use vstd::prelude::*;

verus! {

/// Code of the left shift key going down.
pub const LEFT_SHIFT: u8 = 0x2a;

/// Code of the right shift key going down.
pub const RIGHT_SHIFT: u8 = 0x36;

/// Code of the left shift key coming up.
pub const LEFT_SHIFT_UP: u8 = 0xaa;

/// Code of the right shift key coming up.
pub const RIGHT_SHIFT_UP: u8 = 0xb6;

/// Code of the backspace key going down.
pub const BACKSPACE: u8 = 0x0e;

/// Code of the enter key going down.
pub const ENTER: u8 = 0x1c;

/// Codes from this one on report a key coming up.
pub const RELEASE: u8 = 0x80;

/// The character of the key `code - first` places into the row of keys `row`,
/// whose first key has code `first`.
pub open spec fn key_in_row(row: Seq<char>, first: u8, code: u8) -> Option<u8> {
    if first <= code < first + row.len() {
        Some(row[code - first] as u8)
    } else {
        None
    }
}

/// The character that the key with code `code` types, with or without shift.
///
/// Four rows of keys with consecutive codes type the digits, the letters and
/// the symbols beside them. Three single keys type as well: 0x2b the
/// backslash, 0x37 the asterisk of the keypad, and 0x39 the space. Every
/// other key types nothing, the enter key among them: it submits the line
/// and is no character.
pub open spec fn keymap(code: u8, shift: bool) -> Option<u8> {
    if 0x02 <= code <= 0x0d {
        key_in_row(if shift { "!@#$%^&*()_+"@ } else { "1234567890-="@ }, 0x02, code)
    } else if 0x10 <= code <= 0x1b {
        key_in_row(if shift { "QWERTYUIOP{}"@ } else { "qwertyuiop[]"@ }, 0x10, code)
    } else if 0x1e <= code <= 0x29 {
        key_in_row(if shift { "ASDFGHJKL:\"~"@ } else { "asdfghjkl;'`"@ }, 0x1e, code)
    } else if code == 0x2b {
        Some(if shift { '|' as u8 } else { '\\' as u8 })
    } else if 0x2c <= code <= 0x35 {
        key_in_row(if shift { "ZXCVBNM<>?"@ } else { "zxcvbnm,./"@ }, 0x2c, code)
    } else if code == 0x37 {
        Some('*' as u8)
    } else if code == 0x39 {
        Some(' ' as u8)
    } else {
        None
    }
}

/// The character that the key with code `scancode` types while shift is, or
/// is not, held; `None` for a key that types nothing.
pub fn scancode_to_ascii(scancode: u8, shift: bool) -> (r: Option<u8>)
    ensures
        r == keymap(scancode, shift),
{
    let normal: [u8; 59] = [
        0, 0, '1' as u8, '2' as u8, '3' as u8, '4' as u8, '5' as u8, '6' as u8, '7' as u8,
        '8' as u8, '9' as u8, '0' as u8, '-' as u8, '=' as u8, 0, 0,
        'q' as u8, 'w' as u8, 'e' as u8, 'r' as u8, 't' as u8, 'y' as u8, 'u' as u8, 'i' as u8,
        'o' as u8, 'p' as u8, '[' as u8, ']' as u8, 0, 0,
        'a' as u8, 's' as u8, 'd' as u8, 'f' as u8, 'g' as u8, 'h' as u8, 'j' as u8, 'k' as u8,
        'l' as u8, ';' as u8, '\'' as u8, '`' as u8, 0, '\\' as u8,
        'z' as u8, 'x' as u8, 'c' as u8, 'v' as u8, 'b' as u8, 'n' as u8, 'm' as u8, ',' as u8,
        '.' as u8, '/' as u8, 0, '*' as u8, 0, ' ' as u8, 0,
    ];
    let shifted: [u8; 59] = [
        0, 0, '!' as u8, '@' as u8, '#' as u8, '$' as u8, '%' as u8, '^' as u8, '&' as u8,
        '*' as u8, '(' as u8, ')' as u8, '_' as u8, '+' as u8, 0, 0,
        'Q' as u8, 'W' as u8, 'E' as u8, 'R' as u8, 'T' as u8, 'Y' as u8, 'U' as u8, 'I' as u8,
        'O' as u8, 'P' as u8, '{' as u8, '}' as u8, 0, 0,
        'A' as u8, 'S' as u8, 'D' as u8, 'F' as u8, 'G' as u8, 'H' as u8, 'J' as u8, 'K' as u8,
        'L' as u8, ':' as u8, '"' as u8, '~' as u8, 0, '|' as u8,
        'Z' as u8, 'X' as u8, 'C' as u8, 'V' as u8, 'B' as u8, 'N' as u8, 'M' as u8, '<' as u8,
        '>' as u8, '?' as u8, 0, '*' as u8, 0, ' ' as u8, 0,
    ];
    proof {
        reveal_strlit("!@#$%^&*()_+");
        reveal_strlit("1234567890-=");
        reveal_strlit("QWERTYUIOP{}");
        reveal_strlit("qwertyuiop[]");
        reveal_strlit("ASDFGHJKL:\"~");
        reveal_strlit("asdfghjkl;'`");
        reveal_strlit("ZXCVBNM<>?");
        reveal_strlit("zxcvbnm,./");
    }
    let idx = scancode as usize;
    if idx < 59 {
        let c = if shift {
            shifted[idx]
        } else {
            normal[idx]
        };
        if c != 0 {
            Some(c)
        } else {
            None
        }
    } else {
        None
    }
}

/// What a poll of the keyboard amounts to.
#[derive(Clone, Copy, Debug, PartialEq, Eq, Structural)]
pub enum KeyEvent {
    /// Nothing to act on.
    Idle,
    /// A character was typed.
    Char(u8),
    /// The line is to be submitted.
    Submit,
    /// The last character is to be erased.
    Backspace,
}

/// The state that decoding carries from poll to poll.
#[derive(Clone, Copy, Debug, PartialEq, Eq, Structural)]
pub struct KeyDecoder {
    /// The key seen going down at the last poll and not yet seen coming up;
    /// 0 when there is none.
    pub last: u8,
    /// Whether a shift key is held.
    pub shift: bool,
}

/// The shift state after `code` was seen: shift keys going down or coming up
/// set it, every other code leaves it alone.
pub open spec fn shift_after(shift: bool, code: u8) -> bool {
    if code == LEFT_SHIFT || code == RIGHT_SHIFT {
        true
    } else if code == LEFT_SHIFT_UP || code == RIGHT_SHIFT_UP {
        false
    } else {
        shift
    }
}

/// What a key going down stands for, shift held or not.
pub open spec fn event_of(code: u8, shift: bool) -> KeyEvent {
    if code == BACKSPACE {
        KeyEvent::Backspace
    } else if code == ENTER {
        KeyEvent::Submit
    } else {
        match keymap(code, shift) {
            Some(c) => KeyEvent::Char(c),
            None => KeyEvent::Idle,
        }
    }
}

/// One poll: the state after it and the event it amounts to.
///
/// Code 0 and codes of keys coming up give no event and clear the remembered
/// key. A key going down gives its event once: as long as polls show the same
/// code they give nothing more.
pub open spec fn decode(state: KeyDecoder, code: u8) -> (KeyDecoder, KeyEvent) {
    let shift = shift_after(state.shift, code);
    if code == 0 || code >= RELEASE {
        (KeyDecoder { last: 0, shift }, KeyEvent::Idle)
    } else if code == state.last {
        (KeyDecoder { last: state.last, shift }, KeyEvent::Idle)
    } else {
        (KeyDecoder { last: code, shift }, event_of(code, shift))
    }
}

impl KeyDecoder {
    /// The decoder at start: no key remembered, shift not held.
    pub fn new() -> (r: KeyDecoder)
        ensures
            r == (KeyDecoder { last: 0, shift: false }),
    {
        KeyDecoder { last: 0, shift: false }
    }

    /// Takes the code read at one poll and returns the event it amounts to.
    pub fn feed(&mut self, code: u8) -> (event: KeyEvent)
        ensures
            (*final(self), event) == decode(*old(self), code),
    {
        if code == LEFT_SHIFT || code == RIGHT_SHIFT {
            self.shift = true;
        } else if code == LEFT_SHIFT_UP || code == RIGHT_SHIFT_UP {
            self.shift = false;
        }
        assert((code & 0x80 == 0) == (code < 0x80)) by (bit_vector);
        if code == 0 || code & 0x80 != 0 {
            self.last = 0;
            return KeyEvent::Idle;
        }
        if code == self.last {
            return KeyEvent::Idle;
        }
        self.last = code;
        if code == BACKSPACE {
            KeyEvent::Backspace
        } else if code == ENTER {
            KeyEvent::Submit
        } else {
            match scancode_to_ascii(code, self.shift) {
                Some(c) => KeyEvent::Char(c),
                None => KeyEvent::Idle,
            }
        }
    }
}

/// A key types a printable character or nothing: never a control
/// character, and never the byte 0.
pub proof fn lemma_keys_type_printable_characters(code: u8, shift: bool)
    ensures
        match keymap(code, shift) {
            Some(c) => 0x20 <= c <= 0x7e,
            None => true,
        },
        keymap(ENTER, shift) is None,
        keymap(BACKSPACE, shift) is None,
        code == 0 || code >= RELEASE ==> keymap(code, shift) is None,
{
    reveal_strlit("!@#$%^&*()_+");
    reveal_strlit("1234567890-=");
    reveal_strlit("QWERTYUIOP{}");
    reveal_strlit("qwertyuiop[]");
    reveal_strlit("ASDFGHJKL:\"~");
    reveal_strlit("asdfghjkl;'`");
    reveal_strlit("ZXCVBNM<>?");
    reveal_strlit("zxcvbnm,./");
}

} // verus!
