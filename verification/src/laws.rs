//! What holds of a session whatever its state and whatever is typed.

use vstd::prelude::*;
use vstd::string::StringSliceAdditionalSpecFns;
use crate::bytes::has_suffix;
use crate::command::{
    lemma_parsed_cat, lemma_parsed_cd, lemma_parsed_echo, lemma_parsed_mkdir,
    lemma_parsed_touch, lemma_parsed_words, lemma_parsed_write,
    lemma_parsed_write_without_text, parsed, typed_line, Command, KW_CAT, KW_CD, KW_ECHO,
    KW_LS, KW_MKDIR, KW_TOUCH, KW_WRITE,
};
use crate::console::{cursor_shows, next_poll, polled, ConsoleModel};
use crate::error::Error;
use crate::fs::laws::{
    lemma_created_directory_is_found, lemma_created_file_is_found, lemma_path_frame,
    lemma_path_within_bound, lemma_with_directory_frame, lemma_written_is_read,
};
use crate::fs::model::{
    child_names, depth, dir_well_formed, extends, file_names, file_slot, lemma_position_found,
    lemma_with_data, lemma_with_directory, lemma_with_file, listing, new_file, path_of,
    truncated, FileModel, Kind, MAX_DEPTH, MAX_DIRS, MAX_DIR_STORAGE, MAX_FILES,
};
use crate::fs::path::{
    joined, lemma_joined_bounds, lemma_prompt_bounds, marker, prompt_body, separator,
};
use crate::keyboard::{decode, KeyEvent, RELEASE};
use crate::name::{
    lemma_meaningful_len, lemma_stored, meaningful, meaningful_len, stored, MAX_NAME,
};
use crate::outcome::{report, Outcome};
use crate::session::{
    ls_line, run, run_cat, run_cd, run_mkdir, run_touch, run_write, session_prompt,
    session_well_formed, SessionModel, PARENT, TXT,
};
use crate::shell::{
    erased, handled, shell_well_formed, submitted, typed, with_cursor, with_lines, with_prompt,
    with_report, ShellModel, LINE_CAPACITY, PROMPT_CAPACITY,
};
use crate::terminal::{with_cell, CELLS, HEIGHT, WIDTH};

verus! {

/// No command breaks a session: the arena stays within its capacity, the
/// root stays the root, every parent stays older than its children, and the
/// current directory stays one of the allocated directories.
pub proof fn lemma_run_keeps_well_formed(s: SessionModel, c: Command<Seq<u8>>)
    requires
        session_well_formed(s),
    ensures
        session_well_formed(run(s, c).0),
{
    assert(dir_well_formed(s.fs, s.cwd));
    match c {
        Command::Mkdir(name) => {
            if s.fs[s.cwd].children.len() < MAX_DIRS && s.fs.len() < MAX_DIR_STORAGE {
                lemma_with_directory(s.fs, s.cwd, name);
            }
        },
        Command::Cd(name) => {
            if name != PARENT.spec_bytes() {
                lemma_position_found(child_names(s.fs, s.cwd), meaningful(name));
            }
        },
        Command::Touch(name) => {
            if s.fs[s.cwd].files.len() < MAX_FILES {
                lemma_stored(name);
                lemma_with_file(s.fs, s.cwd, new_file(name));
            }
        },
        Command::Write { name, text } => {
            if has_suffix(name, TXT.spec_bytes()) {
                lemma_position_found(file_names(s.fs[s.cwd]), meaningful(name));
                match file_slot(s.fs, s.cwd, meaningful(name)) {
                    Some(k) => {
                        lemma_with_data(s.fs, s.cwd, k, truncated(text));
                    },
                    None => {
                        if s.fs[s.cwd].files.len() < MAX_FILES {
                            lemma_stored(name);
                            lemma_with_file(
                                s.fs,
                                s.cwd,
                                FileModel { name: stored(name), data: truncated(text) },
                            );
                        }
                    },
                }
            }
        },
        _ => {},
    }
}

/// Nothing is ever deleted, renamed or moved: after any command every
/// directory is still there under its name and with its parent, and has the
/// children and the files it had, in the slots they had and under the names
/// they had. The only thing a command changes of what was there is the
/// content of a file written to.
pub proof fn lemma_run_only_adds(s: SessionModel, c: Command<Seq<u8>>)
    requires
        session_well_formed(s),
    ensures
        extends(s.fs, run(s, c).0.fs),
{
    assert(dir_well_formed(s.fs, s.cwd));
    match c {
        Command::Write { name, text } => {
            lemma_position_found(file_names(s.fs[s.cwd]), meaningful(name));
        },
        _ => {},
    }
}

/// Only four commands can change a session, and of the session a command
/// that fails changes nothing.
pub proof fn lemma_failure_changes_nothing(s: SessionModel, c: Command<Seq<u8>>)
    ensures
        run(s, c).1 is Failed ==> run(s, c).0 == s,
        !(c is Mkdir || c is Cd || c is Touch || c is Write) ==> run(s, c).0 == s,
{
}

/// After `mkdir X` and `cd X` the prompt is the prompt from before, with `X`
/// put in before the marker, and with a `/` before `X` unless the path was
/// the bare `/`.
///
/// This is stated for an `X` that is not empty, that a name field holds
/// whole and that is not `..`; for a directory less than `MAX_DEPTH` levels
/// down, so that the path is shown whole; for a `mkdir` that found room; and
/// for a prompt buffer with room for the longer prompt.
pub proof fn lemma_mkdir_then_cd_extends_prompt(s: SessionModel, x: Seq<u8>, cap: int)
    requires
        session_well_formed(s),
        0 < meaningful_len(x) <= MAX_NAME,
        x != PARENT.spec_bytes(),
        run_mkdir(s, x).1 == Outcome::<Seq<u8>>::DirectoryCreated,
        depth(s.fs, s.cwd) < MAX_DEPTH,
        joined(path_of(s.fs, s.cwd, MAX_DEPTH as nat), cap).len() + meaningful_len(x) + 2 <= cap,
    ensures
        ({
            let made = run_mkdir(s, x).0;
            let (entered, outcome) = run_cd(made, x);
            let body = prompt_body(path_of(s.fs, s.cwd, MAX_DEPTH as nat), cap);
            let link = if body.len() > 1 {
                seq![separator()]
            } else {
                Seq::<u8>::empty()
            };
            &&& outcome == Outcome::<Seq<u8>>::ChangedDirectory
            &&& entered.fs == made.fs
            &&& made.fs[entered.cwd].name == meaningful(x)
            &&& made.fs[entered.cwd].parent == Some(s.cwd)
            &&& session_prompt(s, cap) == body + marker()
            &&& session_prompt(entered, cap) == body + link + meaningful(x) + marker()
        }),
{
    let t = s.fs;
    let made = run_mkdir(s, x).0;
    let u = made.fs;
    let (entered, outcome) = run_cd(made, x);
    let name = meaningful(x);
    lemma_meaningful_len(x);
    lemma_created_directory_is_found(t, s.cwd, x);
    lemma_with_directory(t, s.cwd, x);
    lemma_with_directory_frame(t, s.cwd, x);
    let c = entered.cwd;
    let parts = path_of(t, s.cwd, MAX_DEPTH as nat);
    // The path of the directory entered is the old path with the new name
    // at its end.
    lemma_path_within_bound(t, s.cwd, MAX_DEPTH as nat);
    lemma_path_within_bound(t, s.cwd, (MAX_DEPTH - 1) as nat);
    lemma_path_frame(t, u, s.cwd, (MAX_DEPTH - 1) as nat);
    assert(path_of(u, c, MAX_DEPTH as nat) == parts.push(name));
    // Unfold the joining once.
    let longer = parts.push(name);
    assert(longer.drop_last() =~= parts);
    assert(longer.last() == name);
    lemma_joined_bounds(parts, cap);
    let j = joined(parts, cap);
    assert(joined(longer, cap) == j + name + seq![separator()]);
    let body = prompt_body(parts, cap);
    let long_body = prompt_body(longer, cap);
    assert(long_body =~= j + name);
    if j.len() > 1 {
        assert(j =~= body + seq![separator()]);
        assert(long_body + marker() =~= body + seq![separator()] + name + marker());
    } else {
        assert(long_body + marker() =~= body + Seq::<u8>::empty() + name + marker());
    }
}

/// `cd ..` in the root reports that the root is where one is, and changes
/// nothing.
pub proof fn lemma_cd_up_at_root(s: SessionModel)
    requires
        session_well_formed(s),
        s.cwd == 0,
    ensures
        run_cd(s, PARENT.spec_bytes()) == (s, Outcome::<Seq<u8>>::AlreadyAtRoot),
{
    assert(dir_well_formed(s.fs, 0));
}

/// `cd ..` anywhere but in the root makes the parent the current directory.
pub proof fn lemma_cd_up_below_root(s: SessionModel)
    requires
        session_well_formed(s),
        s.cwd != 0,
    ensures
        run_cd(s, PARENT.spec_bytes()).1 == Outcome::<Seq<u8>>::MovedUp,
        run_cd(s, PARENT.spec_bytes()).0.fs == s.fs,
        Some(run_cd(s, PARENT.spec_bytes()).0.cwd) == s.fs[s.cwd].parent,
{
    assert(dir_well_formed(s.fs, s.cwd));
}

/// A `mkdir` that succeeds adds one child to the current directory and one
/// directory to the arena. It fails exactly when the current directory has
/// `MAX_DIRS` children or the arena has `MAX_DIR_STORAGE` directories; it
/// then reports that capacity is exceeded and changes nothing.
pub proof fn lemma_mkdir_capacity(s: SessionModel, x: Seq<u8>)
    requires
        session_well_formed(s),
    ensures
        ({
            let (after, outcome) = run_mkdir(s, x);
            if s.fs[s.cwd].children.len() == MAX_DIRS || s.fs.len() == MAX_DIR_STORAGE {
                &&& outcome == Outcome::<Seq<u8>>::Failed(Error::CapacityExceeded, Kind::Directory)
                &&& after == s
            } else {
                &&& outcome == Outcome::<Seq<u8>>::DirectoryCreated
                &&& after.cwd == s.cwd
                &&& after.fs.len() == s.fs.len() + 1
                &&& after.fs[s.cwd].children.len() == s.fs[s.cwd].children.len() + 1
            }
        }),
{
    assert(dir_well_formed(s.fs, s.cwd));
}

/// The session after one `mkdir` for each of `names`, all in the same
/// current directory.
pub open spec fn after_mkdirs(s: SessionModel, names: Seq<Seq<u8>>) -> SessionModel
    decreases names.len(),
{
    if names.len() == 0 {
        s
    } else {
        run_mkdir(after_mkdirs(s, names.drop_last()), names.last()).0
    }
}

/// After `n` attempts to create a directory in the current one, that
/// directory has at least `n` children, or it is full, or the arena is.
proof fn lemma_mkdirs_fill(s: SessionModel, names: Seq<Seq<u8>>)
    requires
        session_well_formed(s),
    ensures
        ({
            let after = after_mkdirs(s, names);
            &&& session_well_formed(after)
            &&& after.cwd == s.cwd
            &&& (after.fs[after.cwd].children.len() >= names.len() || after.fs[after.cwd].children.len()
                == MAX_DIRS || after.fs.len() == MAX_DIR_STORAGE)
        }),
    decreases names.len(),
{
    if names.len() > 0 {
        let before = after_mkdirs(s, names.drop_last());
        lemma_mkdirs_fill(s, names.drop_last());
        lemma_mkdir_capacity(before, names.last());
        lemma_run_keeps_well_formed(before, Command::Mkdir(names.last()));
    }
}

/// One directory holds at most `MAX_DIRS` child directories: after
/// `MAX_DIRS` directories were asked for in one directory, whatever their
/// names, asking for one more there reports that capacity is exceeded and
/// changes nothing.
pub proof fn lemma_ninth_mkdir_fails(s: SessionModel, names: Seq<Seq<u8>>, x: Seq<u8>)
    requires
        session_well_formed(s),
        names.len() == MAX_DIRS,
    ensures
        run_mkdir(after_mkdirs(s, names), x) == (
            after_mkdirs(s, names),
            Outcome::<Seq<u8>>::Failed(Error::CapacityExceeded, Kind::Directory),
        ),
{
    lemma_mkdirs_fill(s, names);
    let full = after_mkdirs(s, names);
    assert(dir_well_formed(full.fs, full.cwd));
    lemma_mkdir_capacity(full, x);
}

/// A `touch` that succeeds adds one file to the current directory. It fails
/// exactly when that directory has `MAX_FILES` files; it then reports that
/// capacity is exceeded and changes nothing.
pub proof fn lemma_touch_capacity(s: SessionModel, x: Seq<u8>)
    requires
        session_well_formed(s),
    ensures
        ({
            let (after, outcome) = run_touch(s, x);
            if s.fs[s.cwd].files.len() == MAX_FILES {
                &&& outcome == Outcome::<Seq<u8>>::Failed(Error::CapacityExceeded, Kind::File)
                &&& after == s
            } else {
                &&& outcome == Outcome::<Seq<u8>>::FileCreated
                &&& after.cwd == s.cwd
                &&& after.fs.len() == s.fs.len()
                &&& after.fs[s.cwd].files.len() == s.fs[s.cwd].files.len() + 1
            }
        }),
{
    assert(dir_well_formed(s.fs, s.cwd));
}

/// A `write` to a `.txt` file that the current directory does not have
/// creates the file. It fails exactly when that directory has `MAX_FILES`
/// files; it then reports that capacity is exceeded and changes nothing. A
/// `write` to a file that is there never fails for want of room.
pub proof fn lemma_write_capacity(s: SessionModel, name: Seq<u8>, text: Seq<u8>)
    requires
        session_well_formed(s),
        has_suffix(name, TXT.spec_bytes()),
    ensures
        ({
            let (after, outcome) = run_write(s, name, text);
            if file_slot(s.fs, s.cwd, meaningful(name)) is None && s.fs[s.cwd].files.len()
                == MAX_FILES {
                &&& outcome == Outcome::<Seq<u8>>::Failed(Error::CapacityExceeded, Kind::File)
                &&& after == s
            } else {
                &&& outcome == Outcome::<Seq<u8>>::WroteFile
                &&& after.cwd == s.cwd
                &&& after.fs.len() == s.fs.len()
                &&& after.fs[s.cwd].files.len() == (if file_slot(s.fs, s.cwd, meaningful(name))
                    is Some {
                    s.fs[s.cwd].files.len()
                } else {
                    s.fs[s.cwd].files.len() + 1
                })
            }
        }),
{
    assert(dir_well_formed(s.fs, s.cwd));
    lemma_position_found(file_names(s.fs[s.cwd]), meaningful(name));
}

/// The session after one `touch` for each of `names`, all in the same
/// current directory.
pub open spec fn after_touches(s: SessionModel, names: Seq<Seq<u8>>) -> SessionModel
    decreases names.len(),
{
    if names.len() == 0 {
        s
    } else {
        run_touch(after_touches(s, names.drop_last()), names.last()).0
    }
}

/// After `n` attempts to create a file in the current directory, that
/// directory has at least `n` files, or it is full.
proof fn lemma_touches_fill(s: SessionModel, names: Seq<Seq<u8>>)
    requires
        session_well_formed(s),
    ensures
        ({
            let after = after_touches(s, names);
            &&& session_well_formed(after)
            &&& after.cwd == s.cwd
            &&& (after.fs[after.cwd].files.len() >= names.len() || after.fs[after.cwd].files.len()
                == MAX_FILES)
        }),
    decreases names.len(),
{
    if names.len() > 0 {
        let before = after_touches(s, names.drop_last());
        lemma_touches_fill(s, names.drop_last());
        lemma_touch_capacity(before, names.last());
        lemma_run_keeps_well_formed(before, Command::Touch(names.last()));
    }
}

/// One directory holds at most `MAX_FILES` files: after `MAX_FILES` files
/// were asked for in one directory, whatever their names, a `touch` there
/// reports that capacity is exceeded, and so does a `write` to a `.txt` file
/// that is not there. Neither changes anything.
pub proof fn lemma_seventeenth_file_fails(
    s: SessionModel,
    names: Seq<Seq<u8>>,
    x: Seq<u8>,
    text: Seq<u8>,
)
    requires
        session_well_formed(s),
        names.len() == MAX_FILES,
    ensures
        run_touch(after_touches(s, names), x) == (
            after_touches(s, names),
            Outcome::<Seq<u8>>::Failed(Error::CapacityExceeded, Kind::File),
        ),
        has_suffix(x, TXT.spec_bytes()) && file_slot(
            after_touches(s, names).fs,
            after_touches(s, names).cwd,
            meaningful(x),
        ) is None ==> run_write(after_touches(s, names), x, text) == (
            after_touches(s, names),
            Outcome::<Seq<u8>>::Failed(Error::CapacityExceeded, Kind::File),
        ),
{
    lemma_touches_fill(s, names);
    let full = after_touches(s, names);
    assert(dir_well_formed(full.fs, full.cwd));
    lemma_touch_capacity(full, x);
}

/// What was written is what is shown: after a `write` that succeeded, `cat`
/// of the same name shows the text written, cut to what a file can hold, and
/// nothing of what the file held before. This is stated for a name that a
/// name field holds whole.
pub proof fn lemma_write_then_cat(s: SessionModel, name: Seq<u8>, text: Seq<u8>)
    requires
        session_well_formed(s),
        meaningful_len(name) <= MAX_NAME,
        run_write(s, name, text).1 == Outcome::<Seq<u8>>::WroteFile,
    ensures
        run_cat(run_write(s, name, text).0, name) == (
            run_write(s, name, text).0,
            Outcome::Contents(truncated(text)),
        ),
{
    lemma_written_is_read(s.fs, s.cwd, name, text);
}

/// `cat` changes nothing. It shows a file only if the name ends in `.txt`
/// and the current directory has a file of that name; without the ending it
/// reports the wrong type, with it and without such a file it reports that
/// there is no such file.
pub proof fn lemma_cat_reads_only(s: SessionModel, name: Seq<u8>)
    ensures
        run_cat(s, name).0 == s,
        !has_suffix(name, TXT.spec_bytes()) ==> run_cat(s, name).1 == Outcome::<
            Seq<u8>,
        >::Failed(Error::InvalidOperationForType, Kind::File),
        has_suffix(name, TXT.spec_bytes()) && file_slot(s.fs, s.cwd, meaningful(name)) is None
            ==> run_cat(s, name).1 == Outcome::<Seq<u8>>::Failed(Error::NotFound, Kind::File),
        run_cat(s, name).1 is Contents <==> has_suffix(name, TXT.spec_bytes()) && file_slot(
            s.fs,
            s.cwd,
            meaningful(name),
        ) is Some,
{
}

/// `ls` changes nothing, so `ls` again shows the same line.
pub proof fn lemma_ls_idempotent(s: SessionModel)
    ensures
        run(s, Command::Ls).0 == s,
        run(run(s, Command::Ls).0, Command::Ls) == run(s, Command::Ls),
{
}

/// A file created by `touch` under a name that a name field holds whole, and
/// that ends in `.txt`, can be shown at once, and is empty unless the
/// directory already had a file of that name.
pub proof fn lemma_touch_then_cat(s: SessionModel, name: Seq<u8>)
    requires
        session_well_formed(s),
        meaningful_len(name) <= MAX_NAME,
        has_suffix(name, TXT.spec_bytes()),
        run_touch(s, name).1 == Outcome::<Seq<u8>>::FileCreated,
    ensures
        run_cat(run_touch(s, name).0, name).1 is Contents,
        file_slot(s.fs, s.cwd, meaningful(name)) is None ==> run_cat(
            run_touch(s, name).0,
            name,
        ).1 == Outcome::Contents(Seq::<u8>::empty()),
{
    assert(dir_well_formed(s.fs, s.cwd));
    lemma_created_file_is_found(s.fs, s.cwd, name);
}

/// What the lines that are typed run: a keyword with its argument behind it
/// runs the command of that keyword on that argument.
pub proof fn lemma_typed_lines_run(s: SessionModel, arg: Seq<u8>)
    ensures
        run(s, parsed(typed_line(KW_MKDIR, arg))) == run_mkdir(s, arg),
        run(s, parsed(typed_line(KW_CD, arg))) == run_cd(s, arg),
        run(s, parsed(typed_line(KW_TOUCH, arg))) == run_touch(s, arg),
        run(s, parsed(typed_line(KW_CAT, arg))) == run_cat(s, arg),
        run(s, parsed(typed_line(KW_ECHO, arg))) == (s, Outcome::Echoed(arg)),
        run(s, parsed(KW_LS.spec_bytes())) == (
            s,
            Outcome::Listing(ls_line(listing(s.fs, s.cwd), WIDTH as int)),
        ),
{
    lemma_parsed_mkdir(arg);
    lemma_parsed_cd(arg);
    lemma_parsed_touch(arg);
    lemma_parsed_cat(arg);
    lemma_parsed_echo(arg);
    lemma_parsed_words();
}

/// A typed `write`, with a name that holds no space, a space and a text,
/// writes that text to the file of that name.
pub proof fn lemma_typed_write_runs(s: SessionModel, name: Seq<u8>, text: Seq<u8>)
    requires
        forall|i: int| 0 <= i < name.len() ==> name[i] != ' ' as u8,
    ensures
        run(s, parsed(typed_line(KW_WRITE, name + seq![' ' as u8] + text))) == run_write(
            s,
            name,
            text,
        ),
{
    lemma_parsed_write(name, text);
}

/// A typed `write` whose arguments hold no space names no text: it reports
/// a malformed command and changes nothing.
pub proof fn lemma_typed_write_without_text(s: SessionModel, args: Seq<u8>)
    requires
        forall|i: int| 0 <= i < args.len() ==> args[i] != ' ' as u8,
    ensures
        run(s, parsed(typed_line(KW_WRITE, args))) == (
            s,
            Outcome::<Seq<u8>>::Failed(Error::MalformedCommand, Kind::File),
        ),
{
    lemma_parsed_write_without_text(args);
}

/// Printing lines keeps the screen its size and the row on or just below
/// the screen, and touches nothing but screen and row.
proof fn lemma_with_lines(m: ShellModel, lines: Seq<Seq<u8>>)
    requires
        m.screen.len() == CELLS,
        0 <= m.row <= HEIGHT,
    ensures
        with_lines(m, lines).screen.len() == CELLS,
        0 <= with_lines(m, lines).row <= HEIGHT,
        with_lines(m, lines).session == m.session,
        with_lines(m, lines).line == m.line,
        with_lines(m, lines).prompt_len == m.prompt_len,
    decreases lines.len(),
{
    if lines.len() > 0 {
        lemma_with_lines(m, lines.drop_last());
    }
}

/// Printing the prompt leaves a well-formed shell, with the session as it
/// was: the prompt is on a row of the screen, and that row shows it.
pub proof fn lemma_with_prompt(m: ShellModel)
    requires
        session_well_formed(m.session),
        m.screen.len() == CELLS,
        0 <= m.row <= HEIGHT,
    ensures
        shell_well_formed(with_prompt(m)),
        with_prompt(m).session == m.session,
{
    lemma_prompt_bounds(
        path_of(m.session.fs, m.session.cwd, MAX_DEPTH as nat),
        PROMPT_CAPACITY as int,
    );
}

/// Drawing the cursor cell leaves the shell well formed: the cell lies
/// behind the line, so prompt and line still show.
pub proof fn lemma_cursor_keeps_well_formed(m: ShellModel, visible: bool)
    requires
        shell_well_formed(m),
    ensures
        shell_well_formed(with_cursor(m, visible)),
{
}

/// Submitting a line does to the session what running the line does, and
/// nothing else does anything to it: typing, erasing and drawing the cursor
/// leave the session alone.
pub proof fn lemma_only_commands_change_the_session(m: ShellModel, ch: u8, visible: bool)
    requires
        shell_well_formed(m),
    ensures
        submitted(m).session == run(m.session, parsed(m.line)).0,
        typed(m, ch).session == m.session,
        erased(m).session == m.session,
        with_cursor(m, visible).session == m.session,
{
    let (session, outcome) = run(m.session, parsed(m.line));
    lemma_with_lines(ShellModel { session, row: m.row + 1, ..m }, report(outcome));
}

/// No keyboard event breaks the shell: whatever is typed, erased or
/// submitted, the session stays well formed, the row of the prompt stays on
/// the screen, and prompt and line leave the last cell of their row free.
pub proof fn lemma_handled_keeps_well_formed(m: ShellModel, event: KeyEvent)
    requires
        shell_well_formed(m),
    ensures
        shell_well_formed(handled(m, event)),
{
    match event {
        KeyEvent::Idle => {},
        KeyEvent::Char(ch) => {
            if m.line.len() < LINE_CAPACITY {
                let shown = ShellModel {
                    screen: with_cell(
                        m.screen,
                        m.row,
                        m.prompt_len + m.line.len(),
                        ch,
                    ),
                    line: m.line.push(ch),
                    ..m
                };
                if shown.prompt_len + shown.line.len() >= WIDTH {
                    lemma_with_prompt(ShellModel { row: shown.row + 1, ..shown });
                }
            }
        },
        KeyEvent::Submit => {
            let (session, outcome) = run(m.session, parsed(m.line));
            lemma_run_keeps_well_formed(m.session, parsed(m.line));
            let moved = ShellModel { session, row: m.row + 1, ..m };
            lemma_with_lines(moved, report(outcome));
            lemma_with_prompt(with_report(moved, outcome));
        },
        KeyEvent::Backspace => {},
    }
}

/// No poll of the keyboard breaks the console, whatever code it reads.
pub proof fn lemma_polled_keeps_well_formed(c: ConsoleModel, code: u8)
    requires
        shell_well_formed(c.shell),
    ensures
        shell_well_formed(polled(c, code).shell),
{
    let event = decode(c.keys, code).1;
    lemma_handled_keeps_well_formed(c.shell, event);
    lemma_cursor_keeps_well_formed(handled(c.shell, event), cursor_shows(next_poll(c.polls)));
}

/// A key that is held down acts once: polls that read the same code again
/// change nothing but the cursor cell and the poll count.
pub proof fn lemma_held_key_acts_once(c: ConsoleModel, code: u8)
    requires
        0 < code < RELEASE,
    ensures
        decode(decode(c.keys, code).0, code).1 == KeyEvent::Idle,
        decode(decode(c.keys, code).0, code).0 == decode(c.keys, code).0,
        polled(polled(c, code), code).shell.session == polled(c, code).shell.session,
        polled(polled(c, code), code).shell.line == polled(c, code).shell.line,
{
}

} // verus!
