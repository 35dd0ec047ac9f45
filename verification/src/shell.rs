//! The shell: it gathers typed characters into a line, runs the line as a
//! command when it is submitted, and keeps the screen: the reports of the
//! commands, the prompt with the current path, and the start over at the top
//! when the bottom is reached.

use vstd::prelude::*;
use vstd::string::StringSliceAdditionalSpecFns;
use crate::command::{parsed, Command};
use crate::fs::model::{path_of, MAX_DEPTH};
use crate::fs::path::lemma_prompt_bounds;
use crate::keyboard::KeyEvent;
use crate::laws::{
    lemma_cursor_keeps_well_formed, lemma_handled_keeps_well_formed, lemma_with_prompt,
};
use crate::outcome::{failure_message, report, Outcome};
use crate::outcome::{
    MSG_ABOUT_0, MSG_ABOUT_1, MSG_ALREADY_AT_ROOT, MSG_CHANGED_DIRECTORY, MSG_DIRECTORY_CREATED,
    MSG_FILE_CREATED, MSG_MOVED_UP, MSG_UNKNOWN_COMMAND, MSG_WROTE_FILE,
};
use crate::session::{
    initial_session, run, session_prompt, session_well_formed, Session, SessionModel,
};
use crate::terminal::{
    blank_screen, printed, with_cell, TerminalGrid, BLANK, CELLS, HEIGHT, WIDTH,
};

verus! {

/// Bytes a command line can hold.
pub const LINE_CAPACITY: usize = 80;

/// Bytes of the buffer a prompt is built in.
pub const PROMPT_CAPACITY: usize = 64;

/// Row of the prompt at start.
pub const FIRST_ROW: usize = 7;

/// Row at which output goes on after the screen was emptied.
pub const TOP_ROW: usize = 1;

/// What the top row of the screen shows.
pub const HEADER: &'static str = "OxOS Command Line";

/// The shell as a mathematical value.
pub struct ShellModel {
    /// The filesystem and the current directory.
    pub session: SessionModel,
    /// The characters on the screen, row after row.
    pub screen: Seq<u8>,
    /// The line typed so far.
    pub line: Seq<u8>,
    /// The row of the prompt.
    pub row: int,
    /// The length of the prompt on that row.
    pub prompt_len: int,
}

/// The row of the prompt shows the prompt for the current directory and,
/// right behind it, the line typed so far.
pub open spec fn prompt_row_shows(m: ShellModel) -> bool {
    let p = session_prompt(m.session, PROMPT_CAPACITY as int);
    &&& m.prompt_len == p.len()
    &&& forall|i: int| 0 <= i < p.len() ==> m.screen[m.row * WIDTH + i] == #[trigger] p[i]
    &&& forall|i: int|
        0 <= i < m.line.len() ==> m.screen[m.row * WIDTH + m.prompt_len + i] == #[trigger] m.line[i]
}

/// The session is well formed, the row of the prompt is on the screen and
/// shows prompt and line, and the two together leave the last cell of the
/// row free for the cursor.
pub open spec fn shell_well_formed(m: ShellModel) -> bool {
    &&& session_well_formed(m.session)
    &&& m.screen.len() == CELLS
    &&& 0 <= m.row < HEIGHT
    &&& 0 <= m.prompt_len
    &&& m.prompt_len + m.line.len() < WIDTH
    &&& prompt_row_shows(m)
}

/// An empty screen with the header on its top row.
pub open spec fn header_screen() -> Seq<u8> {
    printed(blank_screen(), 0, HEADER.spec_bytes())
}

/// Makes room for a line: a shell that has run past the bottom of the screen
/// starts over below the header of an emptied screen. What was on the screen
/// is lost.
pub open spec fn wrapped(m: ShellModel) -> ShellModel {
    if m.row >= HEIGHT {
        ShellModel { screen: header_screen(), row: TOP_ROW as int, ..m }
    } else {
        m
    }
}

/// The shell after `text` was printed on the next row.
pub open spec fn with_line(m: ShellModel, text: Seq<u8>) -> ShellModel {
    let w = wrapped(m);
    ShellModel { screen: printed(w.screen, w.row, text), row: w.row + 1, ..w }
}

/// The shell after each of `lines` was printed on a row of its own.
pub open spec fn with_lines(m: ShellModel, lines: Seq<Seq<u8>>) -> ShellModel
    decreases lines.len(),
{
    if lines.len() == 0 {
        m
    } else {
        with_line(with_lines(m, lines.drop_last()), lines.last())
    }
}

/// The shell after the prompt for the current directory was printed and the
/// line was emptied.
pub open spec fn with_prompt(m: ShellModel) -> ShellModel {
    let w = wrapped(m);
    let p = session_prompt(w.session, PROMPT_CAPACITY as int);
    ShellModel {
        screen: printed(w.screen, w.row, p),
        line: Seq::empty(),
        prompt_len: p.len() as int,
        ..w
    }
}

/// The shell after an outcome was reported. Emptying the screen leaves the
/// header and goes on at the top; every other outcome prints its lines.
pub open spec fn with_report(m: ShellModel, o: Outcome<Seq<u8>>) -> ShellModel {
    match o {
        Outcome::Cleared => ShellModel { screen: header_screen(), row: TOP_ROW as int, ..m },
        _ => with_lines(m, report(o)),
    }
}

/// The shell at start: the header, and the first prompt on `FIRST_ROW`.
pub open spec fn started() -> ShellModel {
    with_prompt(
        ShellModel {
            session: initial_session(),
            screen: header_screen(),
            line: Seq::empty(),
            row: FIRST_ROW as int,
            prompt_len: 0,
        },
    )
}

/// The shell after its line was submitted: the line is run as a command, the
/// outcome is reported below the prompt, and a new prompt follows.
pub open spec fn submitted(m: ShellModel) -> ShellModel {
    let (session, outcome) = run(m.session, parsed(m.line));
    with_prompt(with_report(ShellModel { session, row: m.row + 1, ..m }, outcome))
}

/// The shell after `ch` was typed: the character joins the line and shows
/// behind it. When prompt and line then fill the row, a new prompt follows on
/// the next row and the line typed so far is dropped.
pub open spec fn typed(m: ShellModel, ch: u8) -> ShellModel {
    let shown = if m.line.len() < LINE_CAPACITY {
        ShellModel {
            screen: with_cell(m.screen, m.row, m.prompt_len + m.line.len(), ch),
            line: m.line.push(ch),
            ..m
        }
    } else {
        m
    };
    if shown.prompt_len + shown.line.len() >= WIDTH {
        with_prompt(ShellModel { row: shown.row + 1, ..shown })
    } else {
        shown
    }
}

/// The shell after the last character of the line was erased, if there was
/// one.
pub open spec fn erased(m: ShellModel) -> ShellModel {
    if m.line.len() > 0 {
        ShellModel {
            screen: with_cell(m.screen, m.row, m.prompt_len + m.line.len() - 1, BLANK),
            line: m.line.drop_last(),
            ..m
        }
    } else {
        m
    }
}

/// The shell after a keyboard event.
pub open spec fn handled(m: ShellModel, event: KeyEvent) -> ShellModel {
    match event {
        KeyEvent::Idle => m,
        KeyEvent::Char(ch) => typed(m, ch),
        KeyEvent::Submit => submitted(m),
        KeyEvent::Backspace => erased(m),
    }
}

/// The shell after the cursor cell, the one behind the line, was drawn: an
/// underscore when the cursor shows, a blank when it does not.
pub open spec fn with_cursor(m: ShellModel, visible: bool) -> ShellModel {
    ShellModel {
        screen: with_cell(
            m.screen,
            m.row,
            m.prompt_len + m.line.len(),
            if visible {
                '_' as u8
            } else {
                BLANK
            },
        ),
        ..m
    }
}

/// The session, the screen, the line being typed and the place of the
/// prompt.
pub struct ShellInterpreter {
    session: Session,
    grid: TerminalGrid,
    line: [u8; LINE_CAPACITY],
    len: usize,
    row: usize,
    prompt_len: usize,
}

impl View for ShellInterpreter {
    type V = ShellModel;

    /// The session and the screen by their models, the part of the line
    /// buffer in use, and the place of the prompt.
    closed spec fn view(&self) -> ShellModel {
        ShellModel {
            session: self.session@,
            screen: self.grid@,
            line: self.line@.take(self.len as int),
            row: self.row as int,
            prompt_len: self.prompt_len as int,
        }
    }
}

impl ShellInterpreter {
    /// What holds also in the middle of a command: the session is well
    /// formed, the line is within its buffer, and the row is on the screen or
    /// just below it.
    spec fn inv(&self) -> bool {
        &&& self.session.wf()
        &&& self.len <= LINE_CAPACITY
        &&& self.row <= HEIGHT
        &&& self.prompt_len <= PROMPT_CAPACITY
    }

    /// What holds between keyboard events: the model is well formed.
    pub closed spec fn wf(&self) -> bool {
        &&& self.inv()
        &&& shell_well_formed(self@)
    }

    /// A well-formed shell has a well-formed model.
    pub proof fn lemma_wf(self)
        requires
            self.wf(),
        ensures
            shell_well_formed(self@),
    {
    }

    /// Starts over at the top of an emptied screen if the row is below the
    /// bottom.
    fn wrap(&mut self)
        requires
            old(self).inv(),
        ensures
            final(self).inv(),
            final(self).row < HEIGHT,
            final(self)@ == wrapped(old(self)@),
    {
        if self.row >= HEIGHT {
            self.grid.clear_screen();
            self.grid.print_at(HEADER, 0);
            self.row = TOP_ROW;
        }
    }

    /// Prints `text` on the next row.
    fn print_line(&mut self, text: &[u8])
        requires
            old(self).inv(),
        ensures
            final(self).inv(),
            final(self)@ == with_line(old(self)@, text@),
    {
        self.wrap();
        self.grid.print_bytes_at(text, self.row);
        self.row += 1;
    }

    /// Prints the message `text` on the next row.
    fn print_message(&mut self, text: &str)
        requires
            old(self).inv(),
        ensures
            final(self).inv(),
            final(self)@ == with_lines(old(self)@, seq![text.spec_bytes()]),
    {
        proof {
            let lines = seq![text.spec_bytes()];
            assert(lines.drop_last() =~= Seq::<Seq<u8>>::empty());
            assert(with_lines(self@, lines.drop_last()) == self@);
        }
        self.print_line(text.as_bytes());
    }

    /// Prints `text`, which a command produced, on the next row.
    fn print_text(&mut self, text: &[u8])
        requires
            old(self).inv(),
        ensures
            final(self).inv(),
            final(self)@ == with_lines(old(self)@, seq![text@]),
    {
        proof {
            let lines = seq![text@];
            assert(lines.drop_last() =~= Seq::<Seq<u8>>::empty());
            assert(with_lines(self@, lines.drop_last()) == self@);
        }
        self.print_line(text);
    }

    /// Prints the prompt for the current directory and empties the line.
    fn show_prompt(&mut self)
        requires
            old(self).inv(),
        ensures
            final(self).wf(),
            final(self)@ == with_prompt(old(self)@),
    {
        let mut buf = [0u8; PROMPT_CAPACITY];
        let n = self.session.prompt(&mut buf);
        proof {
            lemma_prompt_bounds(
                path_of(self@.session.fs, self@.session.cwd, MAX_DEPTH as nat),
                PROMPT_CAPACITY as int,
            );
            self.session.lemma_wf();
            self.grid.lemma_len();
            lemma_with_prompt(self@);
        }
        self.wrap();
        let shown = vstd::slice::slice_subrange(&buf, 0, n);
        self.grid.print_bytes_at(shown, self.row);
        self.prompt_len = n;
        self.len = 0;
        assert(self.line@.take(0) =~= Seq::<u8>::empty());
    }

    /// Reports an outcome on the screen.
    fn show_report(&mut self, o: &Outcome<Vec<u8>>)
        requires
            old(self).inv(),
        ensures
            final(self).inv(),
            final(self)@ == with_report(old(self)@, o@),
    {
        match o {
            Outcome::Nothing => {},
            Outcome::Cleared => {
                self.grid.clear_screen();
                self.grid.print_at(HEADER, 0);
                self.row = TOP_ROW;
            },
            Outcome::Listing(text) => self.print_text(text.as_slice()),
            Outcome::Echoed(text) => self.print_text(text.as_slice()),
            Outcome::Contents(text) => self.print_text(text.as_slice()),
            Outcome::DirectoryCreated => self.print_message(MSG_DIRECTORY_CREATED),
            Outcome::MovedUp => self.print_message(MSG_MOVED_UP),
            Outcome::AlreadyAtRoot => self.print_message(MSG_ALREADY_AT_ROOT),
            Outcome::ChangedDirectory => self.print_message(MSG_CHANGED_DIRECTORY),
            Outcome::FileCreated => self.print_message(MSG_FILE_CREATED),
            Outcome::WroteFile => self.print_message(MSG_WROTE_FILE),
            Outcome::About => {
                proof {
                    let lines = seq![MSG_ABOUT_0.spec_bytes(), MSG_ABOUT_1.spec_bytes()];
                    assert(lines.drop_last() =~= seq![MSG_ABOUT_0.spec_bytes()]);
                    assert(lines.drop_last().drop_last() =~= Seq::<Seq<u8>>::empty());
                    reveal_with_fuel(with_lines, 3);
                    assert(with_lines(self@, lines) == with_line(
                        with_line(self@, MSG_ABOUT_0.spec_bytes()),
                        MSG_ABOUT_1.spec_bytes(),
                    ));
                }
                self.print_line(MSG_ABOUT_0.as_bytes());
                self.print_line(MSG_ABOUT_1.as_bytes());
            },
            Outcome::UnknownCommand => self.print_message(MSG_UNKNOWN_COMMAND),
            Outcome::Failed(e, k) => self.print_message(failure_message(*e, *k)),
        }
    }

    /// The shell at start: the header on the top row and the first prompt on
    /// `FIRST_ROW`.
    pub fn new() -> (r: ShellInterpreter)
        ensures
            r.wf(),
            r@ == started(),
    {
        let mut grid = TerminalGrid::new();
        grid.print_at(HEADER, 0);
        let mut r = ShellInterpreter {
            session: Session::new(),
            grid,
            line: [0u8; LINE_CAPACITY],
            len: 0,
            row: FIRST_ROW,
            prompt_len: 0,
        };
        assert(r.line@.take(0) =~= Seq::<u8>::empty());
        r.show_prompt();
        r
    }

    /// Submits the line: runs it as a command, reports the outcome below the
    /// prompt and prints a new prompt.
    pub fn submit(&mut self)
        requires
            old(self).wf(),
        ensures
            final(self).wf(),
            final(self)@ == submitted(old(self)@),
    {
        let typed = vstd::slice::slice_subrange(&self.line, 0, self.len);
        let command = Command::parse(typed);
        let outcome = self.session.execute(command);
        self.row += 1;
        self.show_report(&outcome);
        self.show_prompt();
    }

    /// Takes a typed character: adds it to the line and shows it. When prompt
    /// and line then fill the row, prints a new prompt on the next row and
    /// drops the line typed so far.
    pub fn type_char(&mut self, ch: u8)
        requires
            old(self).wf(),
        ensures
            final(self).wf(),
            final(self)@ == typed(old(self)@, ch),
    {
        proof {
            lemma_handled_keeps_well_formed(self@, KeyEvent::Char(ch));
        }
        if self.len < LINE_CAPACITY {
            self.line[self.len] = ch;
            self.grid.put(self.row, self.prompt_len + self.len, ch);
            self.len += 1;
            assert(self.line@.take(self.len as int) =~= old(self).line@.take(
                old(self).len as int,
            ).push(ch));
        }
        if self.prompt_len + self.len >= WIDTH {
            self.row += 1;
            self.show_prompt();
        }
    }

    /// Erases the last character of the line, if there is one.
    pub fn backspace(&mut self)
        requires
            old(self).wf(),
        ensures
            final(self).wf(),
            final(self)@ == erased(old(self)@),
    {
        proof {
            lemma_handled_keeps_well_formed(self@, KeyEvent::Backspace);
        }
        if self.len > 0 {
            self.len -= 1;
            self.grid.put(self.row, self.prompt_len + self.len, BLANK);
            assert(self.line@.take(self.len as int) =~= old(self).line@.take(
                old(self).len as int,
            ).drop_last());
        }
    }

    /// Acts on a keyboard event.
    pub fn handle(&mut self, event: KeyEvent)
        requires
            old(self).wf(),
        ensures
            final(self).wf(),
            final(self)@ == handled(old(self)@, event),
    {
        match event {
            KeyEvent::Idle => {},
            KeyEvent::Char(ch) => self.type_char(ch),
            KeyEvent::Submit => self.submit(),
            KeyEvent::Backspace => self.backspace(),
        }
    }

    /// Draws the cursor cell behind the line: an underscore if `visible`, a
    /// blank if not.
    pub fn draw_cursor(&mut self, visible: bool)
        requires
            old(self).wf(),
        ensures
            final(self).wf(),
            final(self)@ == with_cursor(old(self)@, visible),
    {
        proof {
            lemma_cursor_keeps_well_formed(self@, visible);
        }
        let ch = if visible {
            '_' as u8
        } else {
            BLANK
        };
        self.grid.put(self.row, self.prompt_len + self.len, ch);
    }

    /// The screen.
    pub fn grid(&self) -> (r: &TerminalGrid)
        ensures
            r@ == self@.screen,
    {
        &self.grid
    }

    /// The filesystem and the current directory.
    pub fn session(&self) -> (r: &Session)
        requires
            self.wf(),
        ensures
            r.wf(),
            r@ == self@.session,
    {
        &self.session
    }

    /// The line typed so far.
    pub fn line(&self) -> (r: &[u8])
        requires
            self.wf(),
        ensures
            r@ == self@.line,
    {
        vstd::slice::slice_subrange(&self.line, 0, self.len)
    }

    /// The row of the prompt.
    pub fn row(&self) -> (r: usize)
        requires
            self.wf(),
        ensures
            r == self@.row,
            r < HEIGHT,
    {
        self.row
    }

    /// The column of the cursor: the length of the prompt and the line.
    pub fn column(&self) -> (r: usize)
        requires
            self.wf(),
        ensures
            r == self@.prompt_len + self@.line.len(),
            r < WIDTH,
    {
        self.prompt_len + self.len
    }
}

} // verus!
