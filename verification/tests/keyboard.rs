use oxos::keyboard::{scancode_to_ascii, KeyDecoder, KeyEvent};

#[test]
fn the_table_follows_the_rows_of_the_keyboard() {
    assert_eq!(scancode_to_ascii(0x02, false), Some(b'1'));
    assert_eq!(scancode_to_ascii(0x02, true), Some(b'!'));
    assert_eq!(scancode_to_ascii(0x0b, false), Some(b'0'));
    assert_eq!(scancode_to_ascii(0x0b, true), Some(b')'));
    assert_eq!(scancode_to_ascii(0x0c, false), Some(b'-'));
    assert_eq!(scancode_to_ascii(0x0d, true), Some(b'+'));
    assert_eq!(scancode_to_ascii(0x10, false), Some(b'q'));
    assert_eq!(scancode_to_ascii(0x10, true), Some(b'Q'));
    assert_eq!(scancode_to_ascii(0x19, false), Some(b'p'));
    assert_eq!(scancode_to_ascii(0x1a, false), Some(b'['));
    assert_eq!(scancode_to_ascii(0x1b, true), Some(b'}'));
    assert_eq!(scancode_to_ascii(0x1c, false), None);
    assert_eq!(scancode_to_ascii(0x1c, true), None);
    assert_eq!(scancode_to_ascii(0x1e, false), Some(b'a'));
    assert_eq!(scancode_to_ascii(0x26, true), Some(b'L'));
    assert_eq!(scancode_to_ascii(0x27, false), Some(b';'));
    assert_eq!(scancode_to_ascii(0x27, true), Some(b':'));
    assert_eq!(scancode_to_ascii(0x28, false), Some(b'\''));
    assert_eq!(scancode_to_ascii(0x28, true), Some(b'"'));
    assert_eq!(scancode_to_ascii(0x29, false), Some(b'`'));
    assert_eq!(scancode_to_ascii(0x29, true), Some(b'~'));
    assert_eq!(scancode_to_ascii(0x2b, false), Some(b'\\'));
    assert_eq!(scancode_to_ascii(0x2b, true), Some(b'|'));
    assert_eq!(scancode_to_ascii(0x2c, false), Some(b'z'));
    assert_eq!(scancode_to_ascii(0x32, true), Some(b'M'));
    assert_eq!(scancode_to_ascii(0x33, false), Some(b','));
    assert_eq!(scancode_to_ascii(0x34, false), Some(b'.'));
    assert_eq!(scancode_to_ascii(0x35, false), Some(b'/'));
    assert_eq!(scancode_to_ascii(0x35, true), Some(b'?'));
    assert_eq!(scancode_to_ascii(0x37, false), Some(b'*'));
    assert_eq!(scancode_to_ascii(0x39, false), Some(b' '));
    assert_eq!(scancode_to_ascii(0x39, true), Some(b' '));
}

#[test]
fn keys_outside_the_rows_type_nothing() {
    for code in [0x00u8, 0x01, 0x0e, 0x0f, 0x1c, 0x1d, 0x2a, 0x36, 0x38, 0x3a, 0x3b, 0x45, 0x7f, 0x80, 0x9e, 0xff] {
        assert_eq!(scancode_to_ascii(code, false), None);
        assert_eq!(scancode_to_ascii(code, true), None);
    }
}

#[test]
fn a_key_types_a_printable_character_or_nothing() {
    let mut typing = 0;
    for code in 0u8..=0xff {
        for shift in [false, true] {
            if let Some(c) = scancode_to_ascii(code, shift) {
                assert!((0x20..=0x7e).contains(&c), "code {:#x} types {:#x}", code, c);
                typing += 1;
            }
        }
    }
    assert_eq!(typing, 2 * 49);
}

#[test]
fn every_letter_has_its_capital_under_shift() {
    let mut letters = 0;
    for code in 0u8..=0x7f {
        if let Some(c) = scancode_to_ascii(code, false) {
            if c.is_ascii_lowercase() {
                assert_eq!(scancode_to_ascii(code, true), Some(c.to_ascii_uppercase()));
                letters += 1;
            }
        }
    }
    assert_eq!(letters, 26);
}

#[test]
fn a_held_key_is_reported_once() {
    let mut keys = KeyDecoder::new();
    assert_eq!(keys.feed(0x1e), KeyEvent::Char(b'a'));
    assert_eq!(keys.feed(0x1e), KeyEvent::Idle);
    assert_eq!(keys.feed(0x1e), KeyEvent::Idle);
    assert_eq!(keys.last, 0x1e);
    assert_eq!(keys.feed(0x9e), KeyEvent::Idle);
    assert_eq!(keys.last, 0);
    assert_eq!(keys.feed(0x1e), KeyEvent::Char(b'a'));
}

#[test]
fn an_idle_poll_lets_the_same_key_act_again() {
    let mut keys = KeyDecoder::new();
    assert_eq!(keys.feed(0x30), KeyEvent::Char(b'b'));
    assert_eq!(keys.feed(0x00), KeyEvent::Idle);
    assert_eq!(keys.feed(0x30), KeyEvent::Char(b'b'));
    assert_eq!(keys.feed(0x2e), KeyEvent::Char(b'c'));
}

#[test]
fn shift_is_set_by_either_shift_key_and_cleared_by_its_release() {
    let mut keys = KeyDecoder::new();
    assert_eq!(keys.feed(0x2a), KeyEvent::Idle);
    assert!(keys.shift);
    assert_eq!(keys.feed(0x1e), KeyEvent::Char(b'A'));
    assert_eq!(keys.feed(0xaa), KeyEvent::Idle);
    assert!(!keys.shift);
    assert_eq!(keys.feed(0x1e), KeyEvent::Char(b'a'));
    assert_eq!(keys.feed(0x9e), KeyEvent::Idle);
    assert_eq!(keys.feed(0x36), KeyEvent::Idle);
    assert!(keys.shift);
    assert_eq!(keys.feed(0x02), KeyEvent::Char(b'!'));
    assert_eq!(keys.feed(0xb6), KeyEvent::Idle);
    assert!(!keys.shift);
    assert_eq!(keys.feed(0x03), KeyEvent::Char(b'2'));
}

#[test]
fn enter_and_backspace_are_control_actions() {
    let mut keys = KeyDecoder::new();
    assert_eq!(keys.feed(0x1c), KeyEvent::Submit);
    assert_eq!(keys.feed(0x1c), KeyEvent::Idle);
    assert_eq!(keys.feed(0x9c), KeyEvent::Idle);
    assert_eq!(keys.feed(0x0e), KeyEvent::Backspace);
    assert_eq!(keys.feed(0x8e), KeyEvent::Idle);
    assert_eq!(keys.feed(0x3b), KeyEvent::Idle);
    assert_eq!(keys.last, 0x3b);
}
