//! A single-session text console: a character-grid terminal, a polled
//! keyboard decoder, a fixed-capacity in-memory filesystem and the command
//! interpreter that ties them together.
//!
//! The library holds the whole logic and touches no hardware. A program
//! around it reads one key code per turn, hands it to [`Console::poll`], and
//! copies the screen that [`TerminalGrid::render`] gives to the display.
//!
//! Every type has a mathematical model, its view, and every function says
//! in its contract what it does to that model. What holds of the models
//! whatever their state is proved in the modules `laws` and `fs::laws`.

pub mod bytes;
pub mod command;
pub mod console;
pub mod error;
pub mod fs;
pub mod keyboard;
pub mod laws;
pub mod name;
pub mod outcome;
pub mod search;
pub mod session;
pub mod shell;
pub mod terminal;

pub use bytes::{memcmp, memcpy, memset};
pub use command::Command;
pub use console::Console;
pub use error::Error;
pub use fs::arena::FilesystemArena;
pub use keyboard::{scancode_to_ascii, KeyDecoder, KeyEvent};
pub use name::{name_eq, Name};
pub use outcome::Outcome;
pub use session::Session;
pub use shell::ShellInterpreter;
pub use terminal::{print_boot_logo, TerminalGrid};
