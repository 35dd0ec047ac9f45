use oxos::terminal::{
    print_boot_logo, TerminalGrid, ATTRIBUTE, BLANK, CELLS, HEIGHT, IMAGE_BYTES, WIDTH,
};

fn row_of(grid: &TerminalGrid, row: usize) -> Vec<u8> {
    grid.cells()[row * WIDTH..(row + 1) * WIDTH].to_vec()
}

fn padded(text: &[u8]) -> Vec<u8> {
    let mut v = text.to_vec();
    v.resize(WIDTH, BLANK);
    v
}

#[test]
fn the_grid_is_eighty_by_twenty_five() {
    assert_eq!(WIDTH, 80);
    assert_eq!(HEIGHT, 25);
    assert_eq!(CELLS, 2000);
    assert_eq!(ATTRIBUTE, 0x0f);
    let grid = TerminalGrid::new();
    assert_eq!(grid.cells().len(), 2000);
    assert!(grid.cells().iter().all(|&c| c == b' '));
}

#[test]
fn print_at_writes_from_the_start_of_the_row() {
    let mut grid = TerminalGrid::new();
    grid.print_at("Hello", 3);
    assert_eq!(row_of(&grid, 3), padded(b"Hello"));
    assert_eq!(row_of(&grid, 2), padded(b""));
    assert_eq!(row_of(&grid, 4), padded(b""));
    grid.print_at("Hi", 3);
    assert_eq!(row_of(&grid, 3), padded(b"Hillo"));
    assert_eq!(grid.get(3, 0), b'H');
    assert_eq!(grid.get(3, 4), b'o');
    assert_eq!(grid.get(3, 5), b' ');
}

#[test]
fn text_longer_than_a_row_runs_on() {
    let mut grid = TerminalGrid::new();
    let text = vec![b'x'; 100];
    grid.print_bytes_at(&text, 1);
    assert_eq!(row_of(&grid, 1), vec![b'x'; 80]);
    let mut second = vec![b'x'; 20];
    second.resize(80, b' ');
    assert_eq!(row_of(&grid, 2), second);
}

#[test]
fn text_is_cut_at_the_end_of_the_screen() {
    let mut grid = TerminalGrid::new();
    let text = vec![b'y'; 200];
    grid.print_bytes_at(&text, 24);
    assert_eq!(row_of(&grid, 24), vec![b'y'; 80]);
    assert_eq!(row_of(&grid, 23), padded(b""));
    let before = grid.cells().to_vec();
    grid.print_bytes_at(b"below the screen", 25);
    grid.print_bytes_at(b"far below", 1_000_000);
    assert_eq!(grid.cells(), &before[..]);
}

#[test]
fn put_writes_one_cell() {
    let mut grid = TerminalGrid::new();
    grid.put(2, 5, b'_');
    assert_eq!(grid.get(2, 5), b'_');
    assert_eq!(grid.cells().iter().filter(|&&c| c != b' ').count(), 1);
    grid.put(2, 85, b'#');
    assert_eq!(grid.get(3, 5), b'#');
    let before = grid.cells().to_vec();
    grid.put(24, 80, b'!');
    grid.put(25, 0, b'!');
    grid.put(0, 2000, b'!');
    assert_eq!(grid.cells(), &before[..]);
    grid.put(24, 79, b'!');
    assert_eq!(grid.cells()[1999], b'!');
}

#[test]
fn clear_screen_empties_every_cell() {
    let mut grid = TerminalGrid::new();
    grid.print_at("something", 0);
    grid.put(24, 79, b'x');
    grid.clear_screen();
    assert!(grid.cells().iter().all(|&c| c == b' '));
}

#[test]
fn the_boot_logo_takes_the_first_rows() {
    let mut grid = TerminalGrid::new();
    grid.print_at("##############################", 6);
    grid.print_at("below", 7);
    print_boot_logo(&mut grid);
    assert_eq!(row_of(&grid, 0), padded(b"   ____        ____   "));
    assert_eq!(row_of(&grid, 1), padded(b"  / __ \\__  _/ __ \\  "));
    assert_eq!(row_of(&grid, 2), padded(b" / / / / / / / / / /  "));
    assert_eq!(row_of(&grid, 3), padded(b"/ /_/ / /_/ / /_/ /   "));
    assert_eq!(row_of(&grid, 4), padded(b"\\____/\\__,_/\\____/    "));
    assert_eq!(row_of(&grid, 5), padded(b"      OxOS            "));
    assert_eq!(row_of(&grid, 6), padded(b"##############################"));
    assert_eq!(row_of(&grid, 7), padded(b"below"));
}

#[test]
fn render_gives_character_and_attribute_for_each_cell() {
    assert_eq!(IMAGE_BYTES, 2 * CELLS);
    let mut grid = TerminalGrid::new();
    grid.print_at("Hi", 1);
    grid.put(24, 79, b'!');
    let mut frame = [0xeeu8; IMAGE_BYTES];
    grid.render(&mut frame);
    for cell in 0..CELLS {
        assert_eq!(frame[2 * cell], grid.cells()[cell]);
        assert_eq!(frame[2 * cell + 1], 0x0f);
    }
    assert_eq!(&frame[160..166], &[b'H', 0x0f, b'i', 0x0f, b' ', 0x0f]);
    assert_eq!(&frame[3998..], &[b'!', 0x0f]);
    assert_eq!(&frame[..2], &[b' ', 0x0f]);
}
