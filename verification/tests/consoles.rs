use oxos::console::{Console, BLINK_ON, BLINK_PERIOD};
use oxos::keyboard::scancode_to_ascii;
use oxos::terminal::WIDTH;

fn code_of(ch: u8) -> (u8, bool) {
    for code in 1u8..0x80 {
        if code == 0x1c {
            continue;
        }
        if scancode_to_ascii(code, false) == Some(ch) {
            return (code, false);
        }
        if scancode_to_ascii(code, true) == Some(ch) {
            return (code, true);
        }
    }
    panic!("no key types {:?}", ch as char);
}

fn press(console: &mut Console, code: u8) {
    console.poll(code);
    console.poll(code);
    console.poll(code | 0x80);
}

fn type_line(console: &mut Console, line: &str) {
    for ch in line.bytes() {
        let (code, shift) = code_of(ch);
        if shift {
            console.poll(0x2a);
        }
        press(console, code);
        if shift {
            console.poll(0xaa);
        }
    }
    press(console, 0x1c);
}

fn row(console: &Console, row: usize) -> String {
    let cells = &console.grid().cells()[row * WIDTH..(row + 1) * WIDTH];
    String::from_utf8(cells.to_vec()).unwrap().trim_end().to_string()
}

#[test]
fn a_console_starts_like_its_shell() {
    let console = Console::new();
    assert_eq!(row(&console, 0), "OxOS Command Line");
    assert_eq!(row(&console, 7), "/>");
    assert_eq!(console.shell().row(), 7);
    assert_eq!(BLINK_PERIOD, 1_000_000);
    assert_eq!(BLINK_ON, 500_000);
}

#[test]
fn typed_keys_run_commands() {
    let mut console = Console::new();
    type_line(&mut console, "mkdir Docs");
    assert_eq!(row(&console, 7), "/> mkdir Docs_");
    assert_eq!(row(&console, 8), "Directory created");
    assert_eq!(row(&console, 9), "/> _");
    type_line(&mut console, "cd Docs");
    assert_eq!(row(&console, 10), "Changed directory");
    assert_eq!(row(&console, 11), "/Docs> _");
    type_line(&mut console, "write a.txt Hello, World!");
    assert_eq!(row(&console, 12), "Wrote file");
    type_line(&mut console, "cat a.txt");
    assert_eq!(row(&console, 14), "Hello, World!");
    assert_eq!(console.shell().session().cwd(), 1);
}

#[test]
fn the_same_letter_twice_needs_a_release_in_between() {
    let mut console = Console::new();
    console.poll(0x1e);
    console.poll(0x1e);
    console.poll(0x1e);
    assert_eq!(console.shell().line(), b"a");
    console.poll(0x9e);
    console.poll(0x1e);
    assert_eq!(console.shell().line(), b"aa");
    console.poll(0x00);
    console.poll(0x1e);
    assert_eq!(console.shell().line(), b"aaa");
}

#[test]
fn backspace_erases_the_last_character() {
    let mut console = Console::new();
    press(&mut console, 0x1e);
    press(&mut console, 0x30);
    assert_eq!(console.shell().line(), b"ab");
    press(&mut console, 0x0e);
    assert_eq!(console.shell().line(), b"a");
    press(&mut console, 0x0e);
    press(&mut console, 0x0e);
    assert_eq!(console.shell().line(), b"");
}

#[test]
fn the_cursor_shows_in_the_first_half_of_each_blink() {
    let mut console = Console::new();
    console.poll(0);
    assert_eq!(row(&console, 7), "/> _");
    for _ in 0..499_998 {
        console.poll(0);
    }
    assert_eq!(row(&console, 7), "/> _");
    console.poll(0);
    assert_eq!(row(&console, 7), "/>");
    for _ in 0..499_999 {
        console.poll(0);
    }
    assert_eq!(row(&console, 7), "/>");
    console.poll(0);
    assert_eq!(row(&console, 7), "/> _");
}

#[test]
fn keys_that_type_nothing_do_nothing() {
    let mut console = Console::new();
    for code in [0x01u8, 0x0f, 0x1d, 0x38, 0x3a, 0x3b, 0x48, 0x50] {
        press(&mut console, code);
    }
    assert_eq!(console.shell().line(), b"");
    assert_eq!(console.shell().row(), 7);
}

#[test]
fn the_main_items_are_at_the_root_of_the_crate() {
    let mut console = oxos::Console::new();
    console.poll(0x26);
    console.poll(0xa6);
    console.poll(0x1f);
    console.poll(0x9f);
    console.poll(0x1c);
    assert_eq!(row(&console, 7), "/> ls_");
    assert_eq!(row(&console, 8), "");
    assert_eq!(row(&console, 9), "/> _");
    assert!(oxos::name_eq(b"a", b"a b"));
    assert_eq!(oxos::scancode_to_ascii(0x1e, true), Some(b'A'));
    assert_eq!(oxos::memcmp(b"a", b"c", 1), -2);
    let mut grid = oxos::TerminalGrid::new();
    oxos::print_boot_logo(&mut grid);
    assert_eq!(grid.get(5, 6), b'O');
}
