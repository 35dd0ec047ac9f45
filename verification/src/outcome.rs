//! What running a command comes to, and the lines that report it.

use vstd::prelude::*;
use vstd::string::StringSliceAdditionalSpecFns;
use crate::error::Error;
use crate::fs::model::Kind;

verus! {

/// Reported when a directory was created.
pub const MSG_DIRECTORY_CREATED: &'static str = "Directory created";

/// Reported when the current directory became its parent.
pub const MSG_MOVED_UP: &'static str = "Moved up";

/// Reported when the current directory has no parent to move to.
pub const MSG_ALREADY_AT_ROOT: &'static str = "Already at root";

/// Reported when the current directory became one of its children.
pub const MSG_CHANGED_DIRECTORY: &'static str = "Changed directory";

/// Reported when an empty file was created.
pub const MSG_FILE_CREATED: &'static str = "File created";

/// Reported when text was written to a file.
pub const MSG_WROTE_FILE: &'static str = "Wrote file";

/// First line of what the system says about itself.
pub const MSG_ABOUT_0: &'static str = "OxOS: A hobby x86_64 OS in Rust.";

/// Second line of what the system says about itself.
pub const MSG_ABOUT_1: &'static str = "github.com/TacoDark/oxos";

/// Reported for a line that is no command.
pub const MSG_UNKNOWN_COMMAND: &'static str = "Unknown command";

/// Reported when there is no room for another directory.
pub const MSG_NO_SPACE_FOR_DIRECTORY: &'static str = "No space for directory";

/// Reported when there is no room for another file.
pub const MSG_NO_SPACE_FOR_FILE: &'static str = "No space for file";

/// Reported when the current directory has no child of the name given.
pub const MSG_NO_SUCH_DIRECTORY: &'static str = "No such directory";

/// Reported when the current directory has no file of the name given.
pub const MSG_NO_SUCH_FILE: &'static str = "No such file";

/// Reported when a file to read or write is not a `.txt` file.
pub const MSG_ONLY_TXT: &'static str = "Only .txt files supported";

/// Reported when a write names no text.
pub const MSG_WRITE_USAGE: &'static str = "Usage: write <file.txt> <text>";

/// What running a command came to. `T` is the type of the text it carries:
/// a byte vector where commands are run, a sequence where they are reasoned
/// about.
#[derive(Debug, PartialEq, Eq)]
pub enum Outcome<T> {
    /// Nothing was asked for.
    Nothing,
    /// The screen is to be emptied.
    Cleared,
    /// The listing of the current directory, rendered as one line.
    Listing(T),
    /// The text that was to be printed.
    Echoed(T),
    /// The content of the file that was to be shown.
    Contents(T),
    /// A directory was created.
    DirectoryCreated,
    /// The current directory is now its former parent.
    MovedUp,
    /// The current directory is the root and stays so.
    AlreadyAtRoot,
    /// The current directory is now one of its former children.
    ChangedDirectory,
    /// An empty file was created.
    FileCreated,
    /// Text was written to a file.
    WroteFile,
    /// The system is to say what it is.
    About,
    /// The line was no command.
    UnknownCommand,
    /// The command failed on a directory or a file, and changed nothing.
    Failed(Error, Kind),
}

impl View for Outcome<Vec<u8>> {
    type V = Outcome<Seq<u8>>;

    /// The same outcome with its text as a sequence.
    open spec fn view(&self) -> Outcome<Seq<u8>> {
        match *self {
            Outcome::Nothing => Outcome::Nothing,
            Outcome::Cleared => Outcome::Cleared,
            Outcome::Listing(t) => Outcome::Listing(t@),
            Outcome::Echoed(t) => Outcome::Echoed(t@),
            Outcome::Contents(t) => Outcome::Contents(t@),
            Outcome::DirectoryCreated => Outcome::DirectoryCreated,
            Outcome::MovedUp => Outcome::MovedUp,
            Outcome::AlreadyAtRoot => Outcome::AlreadyAtRoot,
            Outcome::ChangedDirectory => Outcome::ChangedDirectory,
            Outcome::FileCreated => Outcome::FileCreated,
            Outcome::WroteFile => Outcome::WroteFile,
            Outcome::About => Outcome::About,
            Outcome::UnknownCommand => Outcome::UnknownCommand,
            Outcome::Failed(e, k) => Outcome::Failed(e, k),
        }
    }
}

/// The line that reports a failure. Running out of room and looking in vain
/// are reported by what was concerned, a directory or a file.
pub open spec fn failure_text(e: Error, k: Kind) -> Seq<u8> {
    match e {
        Error::CapacityExceeded => match k {
            Kind::Directory => MSG_NO_SPACE_FOR_DIRECTORY.spec_bytes(),
            Kind::File => MSG_NO_SPACE_FOR_FILE.spec_bytes(),
        },
        Error::NotFound => match k {
            Kind::Directory => MSG_NO_SUCH_DIRECTORY.spec_bytes(),
            Kind::File => MSG_NO_SUCH_FILE.spec_bytes(),
        },
        Error::InvalidOperationForType => MSG_ONLY_TXT.spec_bytes(),
        Error::MalformedCommand => MSG_WRITE_USAGE.spec_bytes(),
    }
}

/// The lines that report an outcome, top to bottom.
pub open spec fn report(o: Outcome<Seq<u8>>) -> Seq<Seq<u8>> {
    match o {
        Outcome::Nothing => Seq::empty(),
        Outcome::Cleared => Seq::empty(),
        Outcome::Listing(t) => seq![t],
        Outcome::Echoed(t) => seq![t],
        Outcome::Contents(t) => seq![t],
        Outcome::DirectoryCreated => seq![MSG_DIRECTORY_CREATED.spec_bytes()],
        Outcome::MovedUp => seq![MSG_MOVED_UP.spec_bytes()],
        Outcome::AlreadyAtRoot => seq![MSG_ALREADY_AT_ROOT.spec_bytes()],
        Outcome::ChangedDirectory => seq![MSG_CHANGED_DIRECTORY.spec_bytes()],
        Outcome::FileCreated => seq![MSG_FILE_CREATED.spec_bytes()],
        Outcome::WroteFile => seq![MSG_WROTE_FILE.spec_bytes()],
        Outcome::About => seq![MSG_ABOUT_0.spec_bytes(), MSG_ABOUT_1.spec_bytes()],
        Outcome::UnknownCommand => seq![MSG_UNKNOWN_COMMAND.spec_bytes()],
        Outcome::Failed(e, k) => seq![failure_text(e, k)],
    }
}

/// The line that reports a failure.
pub fn failure_message(e: Error, k: Kind) -> (r: &'static str)
    ensures
        r.spec_bytes() == failure_text(e, k),
{
    match e {
        Error::CapacityExceeded => match k {
            Kind::Directory => MSG_NO_SPACE_FOR_DIRECTORY,
            Kind::File => MSG_NO_SPACE_FOR_FILE,
        },
        Error::NotFound => match k {
            Kind::Directory => MSG_NO_SUCH_DIRECTORY,
            Kind::File => MSG_NO_SUCH_FILE,
        },
        Error::InvalidOperationForType => MSG_ONLY_TXT,
        Error::MalformedCommand => MSG_WRITE_USAGE,
    }
}

} // verus!
