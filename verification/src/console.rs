//! The console: the keyboard decoder, the shell and the blinking cursor,
//! driven one keyboard poll at a time.

use vstd::prelude::*;
use crate::keyboard::{decode, KeyDecoder};
use crate::shell::{
    handled, shell_well_formed, started, with_cursor, ShellInterpreter, ShellModel,
};
use crate::terminal::TerminalGrid;

verus! {

/// Polls in one blink of the cursor.
pub const BLINK_PERIOD: u32 = 1_000_000;

/// Polls, at the start of each blink, during which the cursor shows.
pub const BLINK_ON: u32 = 500_000;

/// The console as a mathematical value.
pub struct ConsoleModel {
    /// The state of the keyboard decoder.
    pub keys: KeyDecoder,
    /// The shell.
    pub shell: ShellModel,
    /// The number of polls so far, counted modulo 2^32.
    pub polls: u32,
}

/// The poll count after one more poll.
pub open spec fn next_poll(polls: u32) -> u32 {
    if polls == u32::MAX {
        0
    } else {
        (polls + 1) as u32
    }
}

/// Whether the cursor shows at poll count `polls`.
pub open spec fn cursor_shows(polls: u32) -> bool {
    polls % BLINK_PERIOD < BLINK_ON
}

/// The console at start.
pub open spec fn console_started() -> ConsoleModel {
    ConsoleModel { keys: KeyDecoder { last: 0, shift: false }, shell: started(), polls: 0 }
}

/// The console after a poll that read `code`: the decoder takes the code,
/// the shell acts on the event, and the cursor cell is drawn for the new
/// poll count.
pub open spec fn polled(c: ConsoleModel, code: u8) -> ConsoleModel {
    let (keys, event) = decode(c.keys, code);
    let polls = next_poll(c.polls);
    ConsoleModel {
        keys,
        shell: with_cursor(handled(c.shell, event), cursor_shows(polls)),
        polls,
    }
}

/// The keyboard decoder, the shell and the poll counter.
pub struct Console {
    keys: KeyDecoder,
    shell: ShellInterpreter,
    polls: u32,
}

impl View for Console {
    type V = ConsoleModel;

    /// The decoder as it is, the shell by its model, and the poll count.
    closed spec fn view(&self) -> ConsoleModel {
        ConsoleModel { keys: self.keys, shell: self.shell@, polls: self.polls }
    }
}

impl Console {
    /// The shell is well formed.
    pub closed spec fn wf(&self) -> bool {
        self.shell.wf()
    }

    /// A well-formed console has a well-formed shell model.
    pub proof fn lemma_wf(self)
        requires
            self.wf(),
        ensures
            shell_well_formed(self@.shell),
    {
        self.shell.lemma_wf();
    }

    /// The console at start.
    pub fn new() -> (r: Console)
        ensures
            r.wf(),
            r@ == console_started(),
    {
        Console { keys: KeyDecoder::new(), shell: ShellInterpreter::new(), polls: 0 }
    }

    /// One turn of the main loop: takes the code just read from the keyboard,
    /// lets the shell act on what it amounts to, and draws the cursor.
    pub fn poll(&mut self, code: u8)
        requires
            old(self).wf(),
        ensures
            final(self).wf(),
            final(self)@ == polled(old(self)@, code),
    {
        let event = self.keys.feed(code);
        self.shell.handle(event);
        self.polls = self.polls.wrapping_add(1);
        self.shell.draw_cursor(self.polls % BLINK_PERIOD < BLINK_ON);
    }

    /// The shell.
    pub fn shell(&self) -> (r: &ShellInterpreter)
        requires
            self.wf(),
        ensures
            r.wf(),
            r@ == self@.shell,
    {
        &self.shell
    }

    /// The screen.
    pub fn grid(&self) -> (r: &TerminalGrid)
        ensures
            r@ == self@.shell.screen,
    {
        self.shell.grid()
    }
}

} // verus!
