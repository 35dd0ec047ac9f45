//! Command lines and what they ask for.

use vstd::prelude::*;
use vstd::string::StringSliceAdditionalSpecFns;
use crate::bytes::{bytes_eq, has_prefix, starts_with};
use crate::search::{first_true, is_first_true, lemma_first_true_unique};

verus! {

/// A line that starts like this prints the rest of itself.
pub const KW_ECHO: &'static str = "echo ";

/// This line empties the screen.
pub const KW_CLEAR: &'static str = "clear";

/// This line lists the current directory.
pub const KW_LS: &'static str = "ls";

/// A line that starts like this creates a directory.
pub const KW_MKDIR: &'static str = "mkdir ";

/// A line that starts like this changes the current directory.
pub const KW_CD: &'static str = "cd ";

/// A line that starts like this creates an empty file.
pub const KW_TOUCH: &'static str = "touch ";

/// A line that starts like this writes text to a file.
pub const KW_WRITE: &'static str = "write ";

/// A line that starts like this shows a file.
pub const KW_CAT: &'static str = "cat ";

/// This line tells what the system is.
pub const KW_ABOUT: &'static str = "about";

/// What a command line asks for. `T` is the type of the text it carries:
/// a byte slice where commands are run, a sequence where they are reasoned
/// about.
#[derive(Debug, PartialEq, Eq)]
pub enum Command<T> {
    /// The line is empty.
    Empty,
    /// Empty the screen.
    Clear,
    /// List the current directory.
    Ls,
    /// Print the text.
    Echo(T),
    /// Create a directory with this name.
    Mkdir(T),
    /// Make the directory with this name the current one.
    Cd(T),
    /// Create an empty file with this name.
    Touch(T),
    /// Write `text` to the file called `name`.
    Write { name: T, text: T },
    /// A write that names no text.
    Malformed,
    /// Show the file with this name.
    Cat(T),
    /// Tell what the system is.
    About,
    /// Anything else.
    Unknown,
}

impl<'a> View for Command<&'a [u8]> {
    type V = Command<Seq<u8>>;

    /// The same command with its text as sequences.
    open spec fn view(&self) -> Command<Seq<u8>> {
        match *self {
            Command::Empty => Command::Empty,
            Command::Clear => Command::Clear,
            Command::Ls => Command::Ls,
            Command::Echo(t) => Command::Echo(t@),
            Command::Mkdir(t) => Command::Mkdir(t@),
            Command::Cd(t) => Command::Cd(t@),
            Command::Touch(t) => Command::Touch(t@),
            Command::Write { name, text } => Command::Write { name: name@, text: text@ },
            Command::Malformed => Command::Malformed,
            Command::Cat(t) => Command::Cat(t@),
            Command::About => Command::About,
            Command::Unknown => Command::Unknown,
        }
    }
}

/// What follows the keyword `kw` on `line`.
pub open spec fn after(line: Seq<u8>, kw: Seq<u8>) -> Seq<u8> {
    line.skip(kw.len() as int)
}

/// For each byte of `s`, whether it is a space.
pub open spec fn spaces(s: Seq<u8>) -> Seq<bool> {
    Seq::new(s.len(), |i: int| s[i] == ' ' as u8)
}

/// Position of the first space of `s`; its length when it has none.
pub open spec fn first_space(s: Seq<u8>) -> int {
    first_true(spaces(s))
}

/// The arguments of a write: the name is what stands before the first
/// space, the text is everything after that space. Without a space there is
/// no text, and the command is malformed.
pub open spec fn parsed_write(args: Seq<u8>) -> Command<Seq<u8>> {
    let k = first_space(args);
    if k < args.len() {
        Command::Write { name: args.take(k), text: args.skip(k + 1) }
    } else {
        Command::Malformed
    }
}

/// What `line` asks for. A keyword that ends in a space is followed by its
/// argument, which is the whole rest of the line; the other keywords must be
/// the whole line.
pub open spec fn parsed(line: Seq<u8>) -> Command<Seq<u8>> {
    if has_prefix(line, KW_ECHO.spec_bytes()) {
        Command::Echo(after(line, KW_ECHO.spec_bytes()))
    } else if line == KW_CLEAR.spec_bytes() {
        Command::Clear
    } else if line == KW_LS.spec_bytes() {
        Command::Ls
    } else if has_prefix(line, KW_MKDIR.spec_bytes()) {
        Command::Mkdir(after(line, KW_MKDIR.spec_bytes()))
    } else if has_prefix(line, KW_CD.spec_bytes()) {
        Command::Cd(after(line, KW_CD.spec_bytes()))
    } else if has_prefix(line, KW_TOUCH.spec_bytes()) {
        Command::Touch(after(line, KW_TOUCH.spec_bytes()))
    } else if has_prefix(line, KW_WRITE.spec_bytes()) {
        parsed_write(after(line, KW_WRITE.spec_bytes()))
    } else if has_prefix(line, KW_CAT.spec_bytes()) {
        Command::Cat(after(line, KW_CAT.spec_bytes()))
    } else if line == KW_ABOUT.spec_bytes() {
        Command::About
    } else if line.len() > 0 {
        Command::Unknown
    } else {
        Command::Empty
    }
}

/// Position of the first space of `s`; its length when it has none.
pub fn find_space(s: &[u8]) -> (k: usize)
    ensures
        k == first_space(s@),
        k <= s@.len(),
{
    let mut i: usize = 0;
    while i < s.len() && s[i] != ' ' as u8
        invariant
            i <= s@.len(),
            forall|j: int| 0 <= j < i ==> s@[j] != ' ' as u8,
        decreases s@.len() - i,
    {
        i += 1;
    }
    proof {
        assert(is_first_true(spaces(s@), i as int));
        lemma_first_true_unique(spaces(s@), i as int);
    }
    i
}

/// If `line` begins with `kw`, what follows it.
fn strip<'a>(line: &'a [u8], kw: &str) -> (r: Option<&'a [u8]>)
    ensures
        match r {
            Some(rest) => has_prefix(line@, kw.spec_bytes()) && rest@ == after(
                line@,
                kw.spec_bytes(),
            ),
            None => !has_prefix(line@, kw.spec_bytes()),
        },
{
    let pat = kw.as_bytes();
    if starts_with(line, pat) {
        Some(vstd::slice::slice_subrange(line, pat.len(), line.len()))
    } else {
        None
    }
}

/// Whether `line` is exactly `kw`.
fn is_word(line: &[u8], kw: &str) -> (r: bool)
    ensures
        r == (line@ == kw.spec_bytes()),
{
    bytes_eq(line, kw.as_bytes())
}

impl<'a> Command<&'a [u8]> {
    /// Reads a command line.
    pub fn parse(line: &'a [u8]) -> (c: Command<&'a [u8]>)
        ensures
            c@ == parsed(line@),
    {
        if let Some(text) = strip(line, KW_ECHO) {
            return Command::Echo(text);
        }
        if is_word(line, KW_CLEAR) {
            return Command::Clear;
        }
        if is_word(line, KW_LS) {
            return Command::Ls;
        }
        if let Some(name) = strip(line, KW_MKDIR) {
            return Command::Mkdir(name);
        }
        if let Some(name) = strip(line, KW_CD) {
            return Command::Cd(name);
        }
        if let Some(name) = strip(line, KW_TOUCH) {
            return Command::Touch(name);
        }
        if let Some(args) = strip(line, KW_WRITE) {
            let k = find_space(args);
            if k < args.len() {
                let name = vstd::slice::slice_subrange(args, 0, k);
                let text = vstd::slice::slice_subrange(args, k + 1, args.len());
                return Command::Write { name, text };
            }
            return Command::Malformed;
        }
        if let Some(name) = strip(line, KW_CAT) {
            return Command::Cat(name);
        }
        if is_word(line, KW_ABOUT) {
            return Command::About;
        }
        if line.len() > 0 {
            Command::Unknown
        } else {
            Command::Empty
        }
    }
}

/// The bytes of the keywords.
pub proof fn lemma_keywords()
    ensures
        KW_ECHO.spec_bytes() == seq!['e' as u8, 'c' as u8, 'h' as u8, 'o' as u8, ' ' as u8],
        KW_CLEAR.spec_bytes() == seq!['c' as u8, 'l' as u8, 'e' as u8, 'a' as u8, 'r' as u8],
        KW_LS.spec_bytes() == seq!['l' as u8, 's' as u8],
        KW_MKDIR.spec_bytes() == seq![
            'm' as u8,
            'k' as u8,
            'd' as u8,
            'i' as u8,
            'r' as u8,
            ' ' as u8,
        ],
        KW_CD.spec_bytes() == seq!['c' as u8, 'd' as u8, ' ' as u8],
        KW_TOUCH.spec_bytes() == seq![
            't' as u8,
            'o' as u8,
            'u' as u8,
            'c' as u8,
            'h' as u8,
            ' ' as u8,
        ],
        KW_WRITE.spec_bytes() == seq![
            'w' as u8,
            'r' as u8,
            'i' as u8,
            't' as u8,
            'e' as u8,
            ' ' as u8,
        ],
        KW_CAT.spec_bytes() == seq!['c' as u8, 'a' as u8, 't' as u8, ' ' as u8],
        KW_ABOUT.spec_bytes() == seq!['a' as u8, 'b' as u8, 'o' as u8, 'u' as u8, 't' as u8],
{
    reveal_strlit("echo ");
    reveal_strlit("clear");
    reveal_strlit("ls");
    reveal_strlit("mkdir ");
    reveal_strlit("cd ");
    reveal_strlit("touch ");
    reveal_strlit("write ");
    reveal_strlit("cat ");
    reveal_strlit("about");
    broadcast use vstd::string::is_ascii_spec_bytes;
    assert(vstd::string::is_ascii(KW_ECHO));
    assert(vstd::string::is_ascii(KW_CLEAR));
    assert(vstd::string::is_ascii(KW_LS));
    assert(vstd::string::is_ascii(KW_MKDIR));
    assert(vstd::string::is_ascii(KW_CD));
    assert(vstd::string::is_ascii(KW_TOUCH));
    assert(vstd::string::is_ascii(KW_WRITE));
    assert(vstd::string::is_ascii(KW_CAT));
    assert(vstd::string::is_ascii(KW_ABOUT));
    assert(KW_ECHO.spec_bytes() =~= seq!['e' as u8, 'c' as u8, 'h' as u8, 'o' as u8, ' ' as u8]);
    assert(KW_CLEAR.spec_bytes() =~= seq!['c' as u8, 'l' as u8, 'e' as u8, 'a' as u8, 'r' as u8]);
    assert(KW_LS.spec_bytes() =~= seq!['l' as u8, 's' as u8]);
    assert(KW_MKDIR.spec_bytes() =~= seq![
        'm' as u8,
        'k' as u8,
        'd' as u8,
        'i' as u8,
        'r' as u8,
        ' ' as u8,
    ]);
    assert(KW_CD.spec_bytes() =~= seq!['c' as u8, 'd' as u8, ' ' as u8]);
    assert(KW_TOUCH.spec_bytes() =~= seq![
        't' as u8,
        'o' as u8,
        'u' as u8,
        'c' as u8,
        'h' as u8,
        ' ' as u8,
    ]);
    assert(KW_WRITE.spec_bytes() =~= seq![
        'w' as u8,
        'r' as u8,
        'i' as u8,
        't' as u8,
        'e' as u8,
        ' ' as u8,
    ]);
    assert(KW_CAT.spec_bytes() =~= seq!['c' as u8, 'a' as u8, 't' as u8, ' ' as u8]);
    assert(KW_ABOUT.spec_bytes() =~= seq!['a' as u8, 'b' as u8, 'o' as u8, 'u' as u8, 't' as u8]);
}

/// A line that differs from a keyword at some position of the keyword, or
/// ends before it, neither begins with the keyword nor is the keyword.
proof fn lemma_differs(line: Seq<u8>, kw: Seq<u8>, i: int)
    requires
        0 <= i < kw.len(),
        i < line.len() ==> line[i] != kw[i],
    ensures
        !has_prefix(line, kw),
        line != kw,
{
    if kw.len() <= line.len() {
        assert(line.take(kw.len() as int)[i] == line[i]);
    }
}

/// A keyword with its argument behind it: the line as it is typed.
pub open spec fn typed_line(kw: &str, arg: Seq<u8>) -> Seq<u8> {
    kw.spec_bytes() + arg
}

/// A line made of a keyword and an argument begins with the keyword, and
/// what comes after the keyword is the argument.
proof fn lemma_typed_line(kw: &str, arg: Seq<u8>)
    ensures
        has_prefix(typed_line(kw, arg), kw.spec_bytes()),
        after(typed_line(kw, arg), kw.spec_bytes()) == arg,
{
    let line = typed_line(kw, arg);
    assert(line.take(kw.spec_bytes().len() as int) =~= kw.spec_bytes());
    assert(line.skip(kw.spec_bytes().len() as int) =~= arg);
}

/// `echo ` and a text ask for the text to be printed.
pub proof fn lemma_parsed_echo(text: Seq<u8>)
    ensures
        parsed(typed_line(KW_ECHO, text)) == Command::Echo(text),
{
    lemma_typed_line(KW_ECHO, text);
}

/// `mkdir ` and a name ask for a directory of that name.
pub proof fn lemma_parsed_mkdir(name: Seq<u8>)
    ensures
        parsed(typed_line(KW_MKDIR, name)) == Command::Mkdir(name),
{
    let line = typed_line(KW_MKDIR, name);
    lemma_keywords();
    lemma_typed_line(KW_MKDIR, name);
    lemma_differs(line, KW_ECHO.spec_bytes(), 0);
    lemma_differs(line, KW_CLEAR.spec_bytes(), 0);
    lemma_differs(line, KW_LS.spec_bytes(), 0);
}

/// `cd ` and a name ask for the directory of that name to be entered.
pub proof fn lemma_parsed_cd(name: Seq<u8>)
    ensures
        parsed(typed_line(KW_CD, name)) == Command::Cd(name),
{
    let line = typed_line(KW_CD, name);
    lemma_keywords();
    lemma_typed_line(KW_CD, name);
    lemma_differs(line, KW_ECHO.spec_bytes(), 0);
    lemma_differs(line, KW_CLEAR.spec_bytes(), 1);
    lemma_differs(line, KW_LS.spec_bytes(), 0);
    lemma_differs(line, KW_MKDIR.spec_bytes(), 0);
}

/// `touch ` and a name ask for an empty file of that name.
pub proof fn lemma_parsed_touch(name: Seq<u8>)
    ensures
        parsed(typed_line(KW_TOUCH, name)) == Command::Touch(name),
{
    let line = typed_line(KW_TOUCH, name);
    lemma_keywords();
    lemma_typed_line(KW_TOUCH, name);
    lemma_differs(line, KW_ECHO.spec_bytes(), 0);
    lemma_differs(line, KW_CLEAR.spec_bytes(), 0);
    lemma_differs(line, KW_LS.spec_bytes(), 0);
    lemma_differs(line, KW_MKDIR.spec_bytes(), 0);
    lemma_differs(line, KW_CD.spec_bytes(), 0);
}

/// `write `, a name without a space, a space and a text ask for the text to
/// be written to the file of that name.
pub proof fn lemma_parsed_write(name: Seq<u8>, text: Seq<u8>)
    requires
        forall|i: int| 0 <= i < name.len() ==> name[i] != ' ' as u8,
    ensures
        parsed(typed_line(KW_WRITE, name + seq![' ' as u8] + text)) == (Command::Write {
            name,
            text,
        }),
{
    let args = name + seq![' ' as u8] + text;
    let line = typed_line(KW_WRITE, args);
    lemma_keywords();
    lemma_typed_line(KW_WRITE, args);
    lemma_differs(line, KW_ECHO.spec_bytes(), 0);
    lemma_differs(line, KW_CLEAR.spec_bytes(), 0);
    lemma_differs(line, KW_LS.spec_bytes(), 0);
    lemma_differs(line, KW_MKDIR.spec_bytes(), 0);
    lemma_differs(line, KW_CD.spec_bytes(), 0);
    lemma_differs(line, KW_TOUCH.spec_bytes(), 0);
    let k = name.len() as int;
    assert(is_first_true(spaces(args), k));
    lemma_first_true_unique(spaces(args), k);
    assert(args.take(k) =~= name);
    assert(args.skip(k + 1) =~= text);
}

/// `write ` and arguments without a space are malformed: there is no text.
pub proof fn lemma_parsed_write_without_text(args: Seq<u8>)
    requires
        forall|i: int| 0 <= i < args.len() ==> args[i] != ' ' as u8,
    ensures
        parsed(typed_line(KW_WRITE, args)) == Command::<Seq<u8>>::Malformed,
{
    let line = typed_line(KW_WRITE, args);
    lemma_keywords();
    lemma_typed_line(KW_WRITE, args);
    lemma_differs(line, KW_ECHO.spec_bytes(), 0);
    lemma_differs(line, KW_CLEAR.spec_bytes(), 0);
    lemma_differs(line, KW_LS.spec_bytes(), 0);
    lemma_differs(line, KW_MKDIR.spec_bytes(), 0);
    lemma_differs(line, KW_CD.spec_bytes(), 0);
    lemma_differs(line, KW_TOUCH.spec_bytes(), 0);
    assert(is_first_true(spaces(args), args.len() as int));
    lemma_first_true_unique(spaces(args), args.len() as int);
}

/// `cat ` and a name ask for the file of that name to be shown.
pub proof fn lemma_parsed_cat(name: Seq<u8>)
    ensures
        parsed(typed_line(KW_CAT, name)) == Command::Cat(name),
{
    let line = typed_line(KW_CAT, name);
    lemma_keywords();
    lemma_typed_line(KW_CAT, name);
    lemma_differs(line, KW_ECHO.spec_bytes(), 0);
    lemma_differs(line, KW_CLEAR.spec_bytes(), 1);
    lemma_differs(line, KW_LS.spec_bytes(), 0);
    lemma_differs(line, KW_MKDIR.spec_bytes(), 0);
    lemma_differs(line, KW_CD.spec_bytes(), 1);
    lemma_differs(line, KW_TOUCH.spec_bytes(), 0);
    lemma_differs(line, KW_WRITE.spec_bytes(), 0);
}

/// The keywords that stand alone, and the empty line.
pub proof fn lemma_parsed_words()
    ensures
        parsed(KW_CLEAR.spec_bytes()) == Command::<Seq<u8>>::Clear,
        parsed(KW_LS.spec_bytes()) == Command::<Seq<u8>>::Ls,
        parsed(KW_ABOUT.spec_bytes()) == Command::<Seq<u8>>::About,
        parsed(Seq::empty()) == Command::<Seq<u8>>::Empty,
{
    lemma_keywords();
    let clear = KW_CLEAR.spec_bytes();
    lemma_differs(clear, KW_ECHO.spec_bytes(), 0);
    let ls = KW_LS.spec_bytes();
    lemma_differs(ls, KW_ECHO.spec_bytes(), 0);
    lemma_differs(ls, KW_CLEAR.spec_bytes(), 0);
    let about = KW_ABOUT.spec_bytes();
    lemma_differs(about, KW_ECHO.spec_bytes(), 0);
    lemma_differs(about, KW_CLEAR.spec_bytes(), 0);
    lemma_differs(about, KW_LS.spec_bytes(), 0);
    lemma_differs(about, KW_MKDIR.spec_bytes(), 0);
    lemma_differs(about, KW_CD.spec_bytes(), 0);
    lemma_differs(about, KW_TOUCH.spec_bytes(), 0);
    lemma_differs(about, KW_WRITE.spec_bytes(), 0);
    lemma_differs(about, KW_CAT.spec_bytes(), 0);
    let empty = Seq::<u8>::empty();
    lemma_differs(empty, KW_ECHO.spec_bytes(), 0);
    lemma_differs(empty, KW_CLEAR.spec_bytes(), 0);
    lemma_differs(empty, KW_LS.spec_bytes(), 0);
    lemma_differs(empty, KW_MKDIR.spec_bytes(), 0);
    lemma_differs(empty, KW_CD.spec_bytes(), 0);
    lemma_differs(empty, KW_TOUCH.spec_bytes(), 0);
    lemma_differs(empty, KW_WRITE.spec_bytes(), 0);
    lemma_differs(empty, KW_CAT.spec_bytes(), 0);
    lemma_differs(empty, KW_ABOUT.spec_bytes(), 0);
}

} // verus!
