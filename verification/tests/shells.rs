use oxos::keyboard::KeyEvent;
use oxos::shell::ShellInterpreter;
use oxos::terminal::WIDTH;

fn enter(shell: &mut ShellInterpreter, line: &str) {
    for b in line.bytes() {
        shell.type_char(b);
    }
    shell.submit();
}

fn row(shell: &ShellInterpreter, row: usize) -> String {
    let cells = &shell.grid().cells()[row * WIDTH..(row + 1) * WIDTH];
    String::from_utf8(cells.to_vec()).unwrap().trim_end().to_string()
}

#[test]
fn the_shell_starts_with_header_and_prompt() {
    let shell = ShellInterpreter::new();
    assert_eq!(row(&shell, 0), "OxOS Command Line");
    for r in 1..7 {
        assert_eq!(row(&shell, r), "");
    }
    assert_eq!(row(&shell, 7), "/>");
    assert_eq!(shell.row(), 7);
    assert_eq!(shell.column(), 3);
    assert_eq!(shell.line(), b"");
}

#[test]
fn typed_characters_show_behind_the_prompt() {
    let mut shell = ShellInterpreter::new();
    shell.type_char(b'l');
    shell.type_char(b's');
    assert_eq!(row(&shell, 7), "/> ls");
    assert_eq!(shell.line(), b"ls");
    assert_eq!(shell.column(), 5);
    shell.backspace();
    assert_eq!(row(&shell, 7), "/> l");
    assert_eq!(shell.line(), b"l");
    shell.backspace();
    shell.backspace();
    shell.backspace();
    assert_eq!(row(&shell, 7), "/>");
    assert_eq!(shell.line(), b"");
    assert_eq!(shell.column(), 3);
}

#[test]
fn write_then_cat_renders_the_text() {
    let mut shell = ShellInterpreter::new();
    enter(&mut shell, "write a.txt hello");
    assert_eq!(row(&shell, 7), "/> write a.txt hello");
    assert_eq!(row(&shell, 8), "Wrote file");
    assert_eq!(row(&shell, 9), "/>");
    enter(&mut shell, "cat a.txt");
    assert_eq!(row(&shell, 10), "hello");
    assert_eq!(row(&shell, 11), "/>");
    assert_eq!(shell.row(), 11);
}

#[test]
fn a_second_write_overwrites_what_cat_renders() {
    let mut shell = ShellInterpreter::new();
    enter(&mut shell, "write a.txt hello");
    enter(&mut shell, "write a.txt hi");
    enter(&mut shell, "cat a.txt");
    assert_eq!(row(&shell, 12), "hi");
    assert_eq!(row(&shell, 13), "/>");
}

#[test]
fn cat_reports_a_missing_file_and_a_wrong_type() {
    let mut shell = ShellInterpreter::new();
    enter(&mut shell, "cat missing.txt");
    assert_eq!(row(&shell, 8), "No such file");
    enter(&mut shell, "cat readme");
    assert_eq!(row(&shell, 10), "Only .txt files supported");
    assert_eq!(shell.session().fs().len(), 1);
    assert_eq!(shell.session().fs().dir(0).file_count(), 0);
}

#[test]
fn ls_renders_directories_before_files() {
    let mut shell = ShellInterpreter::new();
    enter(&mut shell, "touch a.txt");
    assert_eq!(row(&shell, 8), "File created");
    enter(&mut shell, "mkdir docs");
    assert_eq!(row(&shell, 10), "Directory created");
    enter(&mut shell, "ls");
    assert_eq!(row(&shell, 12), "[docs] a.txt");
    let cells = shell.grid().cells();
    assert_eq!(&cells[12 * WIDTH..12 * WIDTH + 14], b"[docs] a.txt  ");
    enter(&mut shell, "ls");
    assert_eq!(row(&shell, 14), "[docs] a.txt");
}

#[test]
fn the_prompt_follows_the_current_directory() {
    let mut shell = ShellInterpreter::new();
    enter(&mut shell, "mkdir docs");
    assert_eq!(row(&shell, 9), "/>");
    enter(&mut shell, "cd docs");
    assert_eq!(row(&shell, 10), "Changed directory");
    assert_eq!(row(&shell, 11), "/docs>");
    assert_eq!(shell.column(), 7);
    enter(&mut shell, "cd ..");
    assert_eq!(row(&shell, 12), "Moved up");
    assert_eq!(row(&shell, 13), "/>");
    enter(&mut shell, "cd ..");
    assert_eq!(row(&shell, 14), "Already at root");
    assert_eq!(row(&shell, 15), "/>");
    assert_eq!(shell.session().cwd(), 0);
    enter(&mut shell, "cd nowhere");
    assert_eq!(row(&shell, 16), "No such directory");
}

#[test]
fn the_fixed_reports() {
    let mut shell = ShellInterpreter::new();
    enter(&mut shell, "about");
    assert_eq!(row(&shell, 8), "OxOS: A hobby x86_64 OS in Rust.");
    assert_eq!(row(&shell, 9), "github.com/TacoDark/oxos");
    assert_eq!(row(&shell, 10), "/>");
    enter(&mut shell, "frobnicate");
    assert_eq!(row(&shell, 11), "Unknown command");
    enter(&mut shell, "echo some text");
    assert_eq!(row(&shell, 13), "some text");
    enter(&mut shell, "write a.txt");
    assert_eq!(row(&shell, 15), "Usage: write <file.txt> <text>");
    enter(&mut shell, "write a hello");
    assert_eq!(row(&shell, 17), "Only .txt files supported");
    assert_eq!(shell.row(), 18);
}

#[test]
fn an_empty_line_prints_only_a_new_prompt() {
    let mut shell = ShellInterpreter::new();
    shell.submit();
    assert_eq!(row(&shell, 7), "/>");
    assert_eq!(row(&shell, 8), "/>");
    assert_eq!(shell.row(), 8);
    shell.submit();
    assert_eq!(shell.row(), 9);
}

#[test]
fn clear_empties_the_screen_and_goes_on_at_the_top() {
    let mut shell = ShellInterpreter::new();
    enter(&mut shell, "mkdir docs");
    enter(&mut shell, "cd docs");
    enter(&mut shell, "clear");
    assert_eq!(row(&shell, 0), "OxOS Command Line");
    assert_eq!(row(&shell, 1), "/docs>");
    for r in 2..25 {
        assert_eq!(row(&shell, r), "");
    }
    assert_eq!(shell.row(), 1);
    assert_eq!(shell.line(), b"");
}

#[test]
fn capacity_failures_are_reported() {
    let mut shell = ShellInterpreter::new();
    for i in 0..8 {
        enter(&mut shell, &format!("mkdir d{}", i));
    }
    enter(&mut shell, "clear");
    enter(&mut shell, "mkdir d8");
    assert_eq!(row(&shell, 2), "No space for directory");
    assert_eq!(shell.session().fs().len(), 9);
    for i in 0..16 {
        enter(&mut shell, &format!("touch f{}", i));
    }
    enter(&mut shell, "clear");
    enter(&mut shell, "touch f16");
    assert_eq!(row(&shell, 2), "No space for file");
    enter(&mut shell, "write g.txt text");
    assert_eq!(row(&shell, 4), "No space for file");
}

#[test]
fn output_past_the_bottom_starts_over_at_the_top() {
    let mut shell = ShellInterpreter::new();
    for _ in 0..8 {
        enter(&mut shell, "echo x");
    }
    assert_eq!(shell.row(), 23);
    enter(&mut shell, "echo last");
    assert_eq!(row(&shell, 0), "OxOS Command Line");
    assert_eq!(row(&shell, 1), "/>");
    for r in 2..25 {
        assert_eq!(row(&shell, r), "");
    }
    assert_eq!(shell.row(), 1);
    let mut shell = ShellInterpreter::new();
    for _ in 0..8 {
        enter(&mut shell, "echo x");
    }
    shell.submit();
    assert_eq!(shell.row(), 24);
    enter(&mut shell, "echo wrapped");
    assert_eq!(row(&shell, 0), "OxOS Command Line");
    assert_eq!(row(&shell, 1), "wrapped");
    assert_eq!(row(&shell, 2), "/>");
    assert_eq!(row(&shell, 3), "");
    assert_eq!(shell.row(), 2);
}

#[test]
fn a_line_that_fills_the_row_is_dropped() {
    let mut shell = ShellInterpreter::new();
    for _ in 0..76 {
        shell.type_char(b'a');
    }
    assert_eq!(shell.line().len(), 76);
    assert_eq!(shell.column(), 79);
    assert_eq!(shell.row(), 7);
    shell.type_char(b'b');
    assert_eq!(shell.row(), 8);
    assert_eq!(shell.line(), b"");
    assert_eq!(shell.column(), 3);
    let mut want = String::from("/> ");
    want.push_str(&"a".repeat(76));
    want.push('b');
    assert_eq!(row(&shell, 7), want);
    assert_eq!(row(&shell, 8), "/>");
    shell.submit();
    assert_eq!(row(&shell, 9), "/>");
    assert_eq!(shell.session().fs().dir(0).file_count(), 0);
}

#[test]
fn a_file_as_long_as_a_line_allows_is_shown_whole() {
    let mut shell = ShellInterpreter::new();
    enter(&mut shell, &format!("write a.txt {}", "z".repeat(60)));
    enter(&mut shell, "clear");
    enter(&mut shell, "cat a.txt");
    assert_eq!(row(&shell, 2), "z".repeat(60));
    assert_eq!(row(&shell, 3), "/>");
}

#[test]
fn events_are_acted_on() {
    let mut shell = ShellInterpreter::new();
    shell.handle(KeyEvent::Char(b'l'));
    shell.handle(KeyEvent::Char(b'x'));
    shell.handle(KeyEvent::Idle);
    shell.handle(KeyEvent::Backspace);
    shell.handle(KeyEvent::Char(b's'));
    assert_eq!(shell.line(), b"ls");
    shell.handle(KeyEvent::Submit);
    assert_eq!(row(&shell, 7), "/> ls");
    assert_eq!(row(&shell, 8), "");
    assert_eq!(row(&shell, 9), "/>");
    assert_eq!(shell.row(), 9);
}

#[test]
fn the_cursor_cell_is_drawn_behind_the_line() {
    let mut shell = ShellInterpreter::new();
    shell.type_char(b'a');
    shell.draw_cursor(true);
    assert_eq!(row(&shell, 7), "/> a_");
    shell.draw_cursor(false);
    assert_eq!(row(&shell, 7), "/> a");
    shell.draw_cursor(true);
    shell.type_char(b'b');
    assert_eq!(row(&shell, 7), "/> ab");
}

#[test]
fn a_prompt_of_sixty_four_bytes_is_shown_with_its_marker() {
    let mut shell = ShellInterpreter::new();
    for name in ["aaaaaaaaaaaaaaaa", "bbbbbbbbbbbbbbbb", "cccccccccccccccc", "dddddddddd"] {
        enter(&mut shell, &format!("mkdir {}", name));
        enter(&mut shell, &format!("cd {}", name));
        enter(&mut shell, "clear");
    }
    assert_eq!(
        row(&shell, 1),
        "/aaaaaaaaaaaaaaaa/bbbbbbbbbbbbbbbb/cccccccccccccccc/dddddddddd>"
    );
    assert_eq!(shell.column(), 64);
    enter(&mut shell, "ls");
    assert_eq!(row(&shell, 2), "");
    assert_eq!(
        row(&shell, 3),
        "/aaaaaaaaaaaaaaaa/bbbbbbbbbbbbbbbb/cccccccccccccccc/dddddddddd>"
    );
    for _ in 0..15 {
        shell.type_char(b'x');
    }
    assert_eq!(shell.row(), 3);
    assert_eq!(shell.column(), 79);
    shell.type_char(b'y');
    assert_eq!(shell.row(), 4);
    assert_eq!(shell.line(), b"");
}
