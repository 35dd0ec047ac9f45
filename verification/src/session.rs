//! A session: the filesystem together with the current directory, and what
//! each command does to them.

use vstd::prelude::*;
use vstd::string::StringSliceAdditionalSpecFns;
use crate::bytes::{bytes_eq, ends_with, has_suffix};
use crate::command::Command;
use crate::error::Error;
use crate::fs::arena::{entries_view, FilesystemArena};
use crate::fs::model::{
    child_named, dir_well_formed, file_slot, initial_tree, listing, new_file, path_of,
    well_formed, with_directory, with_file, with_written, DirModel, Kind, MAX_DEPTH, MAX_DIRS,
    MAX_DIR_STORAGE, MAX_FILES,
};
use crate::fs::path::prompt;
use crate::name::meaningful;
use crate::outcome::Outcome;
use crate::terminal::WIDTH;

verus! {

/// The argument that asks for the parent directory.
pub const PARENT: &'static str = "..";

/// What the name of a file to read or write must end in.
pub const TXT: &'static str = ".txt";

/// A session as a mathematical value: the filesystem and the index of the
/// current directory.
pub struct SessionModel {
    /// The allocated directories, in allocation order.
    pub fs: Seq<DirModel>,
    /// Arena index of the current directory.
    pub cwd: int,
}

/// The filesystem is well formed and the current directory is one of its
/// directories.
pub open spec fn session_well_formed(s: SessionModel) -> bool {
    well_formed(s.fs) && 0 <= s.cwd < s.fs.len()
}

/// A session at start: the root alone, and current.
pub open spec fn initial_session() -> SessionModel {
    SessionModel { fs: initial_tree(), cwd: 0 }
}

/// How a listing shows an entry: a directory in square brackets, a file as
/// it is, each followed by a space.
pub open spec fn ls_entry(kind: Kind, name: Seq<u8>) -> Seq<u8> {
    match kind {
        Kind::Directory => seq!['[' as u8] + name + seq![']' as u8, ' ' as u8],
        Kind::File => name + seq![' ' as u8],
    }
}

/// Whether an entry is added to a line that holds `len` bytes and may hold
/// `width`.
pub open spec fn ls_fits(len: int, kind: Kind, name: Seq<u8>, width: int) -> bool {
    match kind {
        Kind::Directory => len + name.len() + 2 < width,
        Kind::File => len + name.len() + 1 < width,
    }
}

/// The entries rendered as one line of at most `width` bytes. An entry that
/// does not fit is left out; the entries after it are still tried.
pub open spec fn ls_line(entries: Seq<(Kind, Seq<u8>)>, width: int) -> Seq<u8>
    decreases entries.len(),
{
    if entries.len() == 0 {
        Seq::empty()
    } else {
        let head = ls_line(entries.drop_last(), width);
        let (kind, name) = entries.last();
        if ls_fits(head.len() as int, kind, name, width) {
            head + ls_entry(kind, name)
        } else {
            head
        }
    }
}

/// A rendered listing fits its line.
pub proof fn lemma_ls_line_len(entries: Seq<(Kind, Seq<u8>)>, width: int)
    requires
        width >= 0,
    ensures
        ls_line(entries, width).len() <= width,
    decreases entries.len(),
{
    if entries.len() > 0 {
        lemma_ls_line_len(entries.drop_last(), width);
    }
}

/// Creating a directory in the current one.
pub open spec fn run_mkdir(s: SessionModel, name: Seq<u8>) -> (SessionModel, Outcome<Seq<u8>>) {
    if s.fs[s.cwd].children.len() < MAX_DIRS && s.fs.len() < MAX_DIR_STORAGE {
        (SessionModel { fs: with_directory(s.fs, s.cwd, name), ..s }, Outcome::DirectoryCreated)
    } else {
        (s, Outcome::Failed(Error::CapacityExceeded, Kind::Directory))
    }
}

/// Changing the current directory: to the parent for `..`, else to the first
/// child of that name.
pub open spec fn run_cd(s: SessionModel, name: Seq<u8>) -> (SessionModel, Outcome<Seq<u8>>) {
    if name == PARENT.spec_bytes() {
        match s.fs[s.cwd].parent {
            Some(p) => (SessionModel { cwd: p, ..s }, Outcome::MovedUp),
            None => (s, Outcome::AlreadyAtRoot),
        }
    } else {
        match child_named(s.fs, s.cwd, meaningful(name)) {
            Some(c) => (SessionModel { cwd: c, ..s }, Outcome::ChangedDirectory),
            None => (s, Outcome::Failed(Error::NotFound, Kind::Directory)),
        }
    }
}

/// Creating an empty file in the current directory.
pub open spec fn run_touch(s: SessionModel, name: Seq<u8>) -> (SessionModel, Outcome<Seq<u8>>) {
    if s.fs[s.cwd].files.len() < MAX_FILES {
        (SessionModel { fs: with_file(s.fs, s.cwd, new_file(name)), ..s }, Outcome::FileCreated)
    } else {
        (s, Outcome::Failed(Error::CapacityExceeded, Kind::File))
    }
}

/// Writing text to a `.txt` file of the current directory, creating it if
/// need be.
pub open spec fn run_write(s: SessionModel, name: Seq<u8>, text: Seq<u8>) -> (
    SessionModel,
    Outcome<Seq<u8>>,
) {
    if !has_suffix(name, TXT.spec_bytes()) {
        (s, Outcome::Failed(Error::InvalidOperationForType, Kind::File))
    } else if file_slot(s.fs, s.cwd, meaningful(name)) is Some || s.fs[s.cwd].files.len()
        < MAX_FILES {
        (SessionModel { fs: with_written(s.fs, s.cwd, name, text), ..s }, Outcome::WroteFile)
    } else {
        (s, Outcome::Failed(Error::CapacityExceeded, Kind::File))
    }
}

/// Showing a `.txt` file of the current directory.
pub open spec fn run_cat(s: SessionModel, name: Seq<u8>) -> (SessionModel, Outcome<Seq<u8>>) {
    if !has_suffix(name, TXT.spec_bytes()) {
        (s, Outcome::Failed(Error::InvalidOperationForType, Kind::File))
    } else {
        match file_slot(s.fs, s.cwd, meaningful(name)) {
            Some(k) => (s, Outcome::Contents(s.fs[s.cwd].files[k].data)),
            None => (s, Outcome::Failed(Error::NotFound, Kind::File)),
        }
    }
}

/// What running command `c` in session `s` comes to: the session after it
/// and the outcome to report.
pub open spec fn run(s: SessionModel, c: Command<Seq<u8>>) -> (SessionModel, Outcome<Seq<u8>>) {
    match c {
        Command::Empty => (s, Outcome::Nothing),
        Command::Clear => (s, Outcome::Cleared),
        Command::Ls => (s, Outcome::Listing(ls_line(listing(s.fs, s.cwd), WIDTH as int))),
        Command::Echo(text) => (s, Outcome::Echoed(text)),
        Command::Mkdir(name) => run_mkdir(s, name),
        Command::Cd(name) => run_cd(s, name),
        Command::Touch(name) => run_touch(s, name),
        Command::Write { name, text } => run_write(s, name, text),
        Command::Malformed => (s, Outcome::Failed(Error::MalformedCommand, Kind::File)),
        Command::Cat(name) => run_cat(s, name),
        Command::About => (s, Outcome::About),
        Command::Unknown => (s, Outcome::UnknownCommand),
    }
}

/// The prompt of session `s`, built in a buffer of `cap` bytes.
pub open spec fn session_prompt(s: SessionModel, cap: int) -> Seq<u8> {
    prompt(path_of(s.fs, s.cwd, MAX_DEPTH as nat), cap)
}

/// Adds `bytes` to the end of `out`.
fn append(out: &mut Vec<u8>, bytes: &[u8])
    ensures
        final(out)@ == old(out)@ + bytes@,
{
    let mut i: usize = 0;
    while i < bytes.len()
        invariant
            i <= bytes@.len(),
            out@ == old(out)@ + bytes@.take(i as int),
        decreases bytes@.len() - i,
    {
        out.push(bytes[i]);
        i += 1;
        assert(out@ =~= old(out)@ + bytes@.take(i as int));
    }
    assert(bytes@.take(bytes@.len() as int) =~= bytes@);
}

/// The filesystem and the current directory.
pub struct Session {
    fs: FilesystemArena,
    cwd: usize,
}

impl View for Session {
    type V = SessionModel;

    /// The filesystem by its model, and the current directory.
    closed spec fn view(&self) -> SessionModel {
        SessionModel { fs: self.fs@, cwd: self.cwd as int }
    }
}

impl Session {
    /// The filesystem is well formed and the current directory is allocated.
    pub closed spec fn wf(&self) -> bool {
        self.fs.wf() && self.cwd < self.fs@.len()
    }

    /// A well-formed session has a well-formed model.
    pub proof fn lemma_wf(self)
        requires
            self.wf(),
        ensures
            session_well_formed(self@),
    {
        self.fs.lemma_wf();
    }

    /// A session at start.
    pub fn new() -> (r: Session)
        ensures
            r.wf(),
            r@ == initial_session(),
    {
        Session { fs: FilesystemArena::new(), cwd: 0 }
    }

    /// Arena index of the current directory.
    pub fn cwd(&self) -> (r: usize)
        requires
            self.wf(),
        ensures
            r == self@.cwd,
            r < self@.fs.len(),
    {
        self.cwd
    }

    /// The filesystem.
    pub fn fs(&self) -> (r: &FilesystemArena)
        requires
            self.wf(),
        ensures
            r.wf(),
            r@ == self@.fs,
    {
        &self.fs
    }

    /// Writes the prompt for the current directory to the front of `buf` and
    /// returns its length.
    pub fn prompt(&self, buf: &mut [u8]) -> (n: usize)
        requires
            self.wf(),
            old(buf)@.len() >= 1,
        ensures
            final(buf)@.len() == old(buf)@.len(),
            n <= final(buf)@.len(),
            final(buf)@.take(n as int) == session_prompt(self@, old(buf)@.len() as int),
    {
        self.fs.build_path(self.cwd, buf)
    }

    /// The listing of the current directory, rendered as one line.
    pub fn ls(&self) -> (r: Vec<u8>)
        requires
            self.wf(),
        ensures
            r@ == ls_line(listing(self@.fs, self@.cwd), WIDTH as int),
    {
        let entries = self.fs.list(self.cwd);
        let ghost all = listing(self@.fs, self@.cwd);
        let mut out: Vec<u8> = Vec::new();
        let mut i: usize = 0;
        assert(all.take(0) =~= Seq::<(Kind, Seq<u8>)>::empty());
        while i < entries.len()
            invariant
                i <= entries@.len(),
                all == entries_view(entries@),
                out@ == ls_line(all.take(i as int), WIDTH as int),
                out@.len() <= WIDTH,
            decreases entries@.len() - i,
        {
            let entry = entries[i];
            let name = entry.name.as_bytes();
            proof {
                entry.name.lemma_bounds();
                let now = all.take(i + 1);
                assert(now.drop_last() =~= all.take(i as int));
                assert(now.last() == (entry.kind, entry.name@));
                lemma_ls_line_len(now, WIDTH as int);
            }
            match entry.kind {
                Kind::Directory => {
                    if out.len() + name.len() + 2 < WIDTH {
                        out.push('[' as u8);
                        append(&mut out, name);
                        out.push(']' as u8);
                        out.push(' ' as u8);
                        assert(out@ =~= ls_line(all.take(i as int), WIDTH as int) + ls_entry(
                            entry.kind,
                            entry.name@,
                        ));
                    }
                },
                Kind::File => {
                    if out.len() + name.len() + 1 < WIDTH {
                        append(&mut out, name);
                        out.push(' ' as u8);
                        assert(out@ =~= ls_line(all.take(i as int), WIDTH as int) + ls_entry(
                            entry.kind,
                            entry.name@,
                        ));
                    }
                },
            }
            i += 1;
        }
        assert(all.take(entries@.len() as int) =~= all);
        out
    }

    /// Creates a directory called `name` in the current directory.
    pub fn mkdir(&mut self, name: &[u8]) -> (o: Outcome<Vec<u8>>)
        requires
            old(self).wf(),
        ensures
            final(self).wf(),
            (final(self)@, o@) == run_mkdir(old(self)@, name@),
    {
        match self.fs.mkdir(self.cwd, name) {
            Ok(_) => Outcome::DirectoryCreated,
            Err(_) => Outcome::Failed(Error::CapacityExceeded, Kind::Directory),
        }
    }

    /// Makes the parent the current directory if `name` is `..`, else the
    /// first child called `name`.
    pub fn cd(&mut self, name: &[u8]) -> (o: Outcome<Vec<u8>>)
        requires
            old(self).wf(),
        ensures
            final(self).wf(),
            (final(self)@, o@) == run_cd(old(self)@, name@),
    {
        proof {
            self.fs.lemma_wf();
            assert(dir_well_formed(self.fs@, self.cwd as int));
        }
        if bytes_eq(name, PARENT.as_bytes()) {
            match self.fs.dir(self.cwd).parent() {
                Some(p) => {
                    self.cwd = p;
                    Outcome::MovedUp
                },
                None => Outcome::AlreadyAtRoot,
            }
        } else {
            match self.fs.find_dir(self.cwd, name) {
                Some(c) => {
                    self.cwd = c;
                    Outcome::ChangedDirectory
                },
                None => Outcome::Failed(Error::NotFound, Kind::Directory),
            }
        }
    }

    /// Creates an empty file called `name` in the current directory.
    pub fn touch(&mut self, name: &[u8]) -> (o: Outcome<Vec<u8>>)
        requires
            old(self).wf(),
        ensures
            final(self).wf(),
            (final(self)@, o@) == run_touch(old(self)@, name@),
    {
        match self.fs.create_file(self.cwd, name) {
            Ok(_) => Outcome::FileCreated,
            Err(_) => Outcome::Failed(Error::CapacityExceeded, Kind::File),
        }
    }

    /// Writes `text` to the file called `name` in the current directory. The
    /// name must end in `.txt`.
    pub fn write(&mut self, name: &[u8], text: &[u8]) -> (o: Outcome<Vec<u8>>)
        requires
            old(self).wf(),
        ensures
            final(self).wf(),
            (final(self)@, o@) == run_write(old(self)@, name@, text@),
    {
        if !ends_with(name, TXT.as_bytes()) {
            return Outcome::Failed(Error::InvalidOperationForType, Kind::File);
        }
        match self.fs.write_file(self.cwd, name, text) {
            Ok(_) => Outcome::WroteFile,
            Err(_) => Outcome::Failed(Error::CapacityExceeded, Kind::File),
        }
    }

    /// The content of the file called `name` in the current directory. The
    /// name must end in `.txt`.
    pub fn cat(&self, name: &[u8]) -> (o: Outcome<Vec<u8>>)
        requires
            self.wf(),
        ensures
            (self@, o@) == run_cat(self@, name@),
    {
        if !ends_with(name, TXT.as_bytes()) {
            return Outcome::Failed(Error::InvalidOperationForType, Kind::File);
        }
        match self.fs.find_file(self.cwd, name) {
            Some(file) => Outcome::Contents(vstd::slice::slice_to_vec(file.data())),
            None => Outcome::Failed(Error::NotFound, Kind::File),
        }
    }

    /// Runs a command.
    pub fn execute(&mut self, c: Command<&[u8]>) -> (o: Outcome<Vec<u8>>)
        requires
            old(self).wf(),
        ensures
            final(self).wf(),
            (final(self)@, o@) == run(old(self)@, c@),
    {
        match c {
            Command::Empty => Outcome::Nothing,
            Command::Clear => Outcome::Cleared,
            Command::Ls => Outcome::Listing(self.ls()),
            Command::Echo(text) => Outcome::Echoed(vstd::slice::slice_to_vec(text)),
            Command::Mkdir(name) => self.mkdir(name),
            Command::Cd(name) => self.cd(name),
            Command::Touch(name) => self.touch(name),
            Command::Write { name, text } => self.write(name, text),
            Command::Malformed => Outcome::Failed(Error::MalformedCommand, Kind::File),
            Command::Cat(name) => self.cat(name),
            Command::About => Outcome::About,
            Command::Unknown => Outcome::UnknownCommand,
        }
    }
}

} // verus!
