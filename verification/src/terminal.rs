//! The character grid of the terminal: `HEIGHT` rows of `WIDTH` cells, kept
//! row after row in one array. Every cell is shown with the same attribute,
//! so the grid keeps the characters only.

use vstd::prelude::*;
use vstd::string::StringSliceAdditionalSpecFns;
use crate::bytes::{
    copy_at, memset,
};

verus! {

/// Cells in a row.
pub const WIDTH: usize = 80;

/// Rows on the screen.
pub const HEIGHT: usize = 25;

/// Cells on the screen.
pub const CELLS: usize = 2000;

/// Bytes of the screen as the display hardware holds it: two per cell.
pub const IMAGE_BYTES: usize = 4000;

/// The attribute every cell is shown with: bright white on black.
pub const ATTRIBUTE: u8 = 0x0f;

/// The character of an empty cell.
pub const BLANK: u8 = 0x20;

/// First line of the start-up logo.
pub const LOGO_0: &'static str = "   ____        ____   ";

/// Second line of the start-up logo.
pub const LOGO_1: &'static str = "  / __ \\__  _/ __ \\  ";

/// Third line of the start-up logo.
pub const LOGO_2: &'static str = " / / / / / / / / / /  ";

/// Fourth line of the start-up logo.
pub const LOGO_3: &'static str = "/ /_/ / /_/ / /_/ /   ";

/// Fifth line of the start-up logo.
pub const LOGO_4: &'static str = "\\____/\\__,_/\\____/    ";

/// Sixth line of the start-up logo.
pub const LOGO_5: &'static str = "      OxOS            ";

/// Last line of the start-up logo, which is empty.
pub const LOGO_6: &'static str = "";

/// A screen with every cell empty.
pub open spec fn blank_screen() -> Seq<u8> {
    Seq::new(CELLS as nat, |i: int| BLANK)
}

/// `screen` after `text` was written from the start of row `row` on, one cell
/// per byte. Text longer than a row runs on into the next rows; what would
/// pass the last cell is dropped.
pub open spec fn printed(screen: Seq<u8>, row: int, text: Seq<u8>) -> Seq<u8> {
    Seq::new(
        screen.len(),
        |i: int|
            if row * WIDTH <= i < row * WIDTH + text.len() {
                text[i - row * WIDTH]
            } else {
                screen[i]
            },
    )
}

/// `screen` after the lines of `lines` were written to the rows from `row`
/// on, one after the other.
pub open spec fn printed_lines(screen: Seq<u8>, row: int, lines: Seq<Seq<u8>>) -> Seq<u8>
    decreases lines.len(),
{
    if lines.len() == 0 {
        screen
    } else {
        printed(
            printed_lines(screen, row, lines.drop_last()),
            row + lines.len() - 1,
            lines.last(),
        )
    }
}

/// `screen` after `ch` was written to the cell `col` cells after the start of
/// row `row`. A cell past the end of the screen is not written.
pub open spec fn with_cell(screen: Seq<u8>, row: int, col: int, ch: u8) -> Seq<u8> {
    let i = row * WIDTH + col;
    if 0 <= i < screen.len() {
        screen.update(i, ch)
    } else {
        screen
    }
}

/// The screen as the display hardware holds it: for each cell, row after
/// row, its character and then its attribute.
pub open spec fn image(screen: Seq<u8>) -> Seq<u8> {
    Seq::new(
        2 * screen.len(),
        |j: int|
            if j % 2 == 0 {
                screen[j / 2]
            } else {
                ATTRIBUTE
            },
    )
}

/// The lines of the start-up logo, top to bottom.
pub open spec fn boot_logo() -> Seq<Seq<u8>> {
    seq![
        LOGO_0.spec_bytes(),
        LOGO_1.spec_bytes(),
        LOGO_2.spec_bytes(),
        LOGO_3.spec_bytes(),
        LOGO_4.spec_bytes(),
        LOGO_5.spec_bytes(),
        LOGO_6.spec_bytes(),
    ]
}

/// The characters on the screen.
pub struct TerminalGrid {
    cells: [u8; CELLS],
}

impl View for TerminalGrid {
    type V = Seq<u8>;

    /// The characters of all cells, row after row.
    closed spec fn view(&self) -> Seq<u8> {
        self.cells@
    }
}

impl TerminalGrid {
    /// The grid always has `CELLS` cells.
    pub proof fn lemma_len(self)
        ensures
            self@.len() == CELLS,
    {
    }

    /// An empty screen.
    pub fn new() -> (r: TerminalGrid)
        ensures
            r@ == blank_screen(),
    {
        let r = TerminalGrid { cells: [BLANK; CELLS] };
        assert(r@ =~= blank_screen());
        r
    }

    /// Empties every cell.
    pub fn clear_screen(&mut self)
        ensures
            final(self)@ == blank_screen(),
    {
        memset(&mut self.cells, 0x20, CELLS);
        assert(self@ =~= blank_screen());
    }

    /// Writes `bytes` from the start of row `row` on, one cell per byte.
    pub fn print_bytes_at(&mut self, bytes: &[u8], row: usize)
        ensures
            final(self)@ == printed(old(self)@, row as int, bytes@),
    {
        if row >= HEIGHT {
            assert(self@ =~= printed(old(self)@, row as int, bytes@));
            return;
        }
        let base = row * WIDTH;
        let room = CELLS - base;
        let n = if bytes.len() < room {
            bytes.len()
        } else {
            room
        };
        let shown = vstd::slice::slice_subrange(bytes, 0, n);
        copy_at(&mut self.cells, base, shown);
        assert(self@ =~= printed(old(self)@, row as int, bytes@));
    }

    /// Writes the bytes of `s` from the start of row `row` on.
    pub fn print_at(&mut self, s: &str, row: usize)
        ensures
            final(self)@ == printed(old(self)@, row as int, s.spec_bytes()),
    {
        self.print_bytes_at(s.as_bytes(), row);
    }

    /// Writes `ch` to the cell `col` cells after the start of row `row`.
    pub fn put(&mut self, row: usize, col: usize, ch: u8)
        ensures
            final(self)@ == with_cell(old(self)@, row as int, col as int, ch),
    {
        if row < HEIGHT && col < CELLS {
            let i = row * WIDTH + col;
            if i < CELLS {
                self.cells[i] = ch;
            }
        }
    }

    /// The character in the cell `col` cells after the start of row `row`.
    pub fn get(&self, row: usize, col: usize) -> (ch: u8)
        requires
            row < HEIGHT,
            col < WIDTH,
        ensures
            ch == self@[row * WIDTH + col],
    {
        self.cells[row * WIDTH + col]
    }

    /// Writes the screen to `out` as the display hardware holds it: two bytes
    /// for each cell, the character and then the attribute.
    pub fn render(&self, out: &mut [u8; IMAGE_BYTES])
        ensures
            final(out)@ == image(self@),
    {
        let mut i: usize = 0;
        while i < CELLS
            invariant
                i <= CELLS,
                forall|j: int| 0 <= j < 2 * i ==> out@[j] == image(self@)[j],
            decreases CELLS - i,
        {
            out[2 * i] = self.cells[i];
            out[2 * i + 1] = ATTRIBUTE;
            i += 1;
        }
        assert(out@ =~= image(self@));
    }

    /// The characters of all cells, row after row.
    pub fn cells(&self) -> (r: &[u8])
        ensures
            r@ == self@,
    {
        &self.cells
    }
}

/// Draws the start-up logo on the first rows of `grid`.
pub fn print_boot_logo(grid: &mut TerminalGrid)
    ensures
        final(grid)@ == printed_lines(old(grid)@, 0, boot_logo()),
{
    let logo: [&str; 7] = [LOGO_0, LOGO_1, LOGO_2, LOGO_3, LOGO_4, LOGO_5, LOGO_6];
    let ghost lines = boot_logo();
    let mut i: usize = 0;
    assert(lines.take(0) =~= Seq::<Seq<u8>>::empty());
    while i < 7
        invariant
            i <= 7,
            lines == boot_logo(),
            forall|k: int| 0 <= k < 7 ==> (#[trigger] logo@[k]).spec_bytes() == lines[k],
            grid@ == printed_lines(old(grid)@, 0, lines.take(i as int)),
        decreases 7 - i,
    {
        grid.print_at(logo[i], i);
        i += 1;
        proof {
            let now = lines.take(i as int);
            assert(now.drop_last() =~= lines.take(i - 1));
            assert(now.last() == lines[i - 1]);
        }
    }
    assert(lines.take(7) =~= lines);
}

} // verus!
