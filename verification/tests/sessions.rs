use oxos::command::Command;
use oxos::error::Error;
use oxos::fs::model::Kind;
use oxos::outcome::{failure_message, Outcome};
use oxos::session::Session;

fn run(session: &mut Session, line: &[u8]) -> Outcome<Vec<u8>> {
    session.execute(Command::parse(line))
}

fn prompt(session: &Session) -> Vec<u8> {
    let mut buf = [0u8; 64];
    let n = session.prompt(&mut buf);
    buf[..n].to_vec()
}

#[test]
fn a_session_starts_in_the_empty_root() {
    let mut s = Session::new();
    assert_eq!(s.cwd(), 0);
    assert_eq!(s.fs().len(), 1);
    assert_eq!(prompt(&s), b"/> ");
    assert_eq!(run(&mut s, b"ls"), Outcome::Listing(vec![]));
}

#[test]
fn mkdir_then_cd_puts_the_name_into_the_prompt() {
    let mut s = Session::new();
    let before = prompt(&s);
    assert_eq!(run(&mut s, b"mkdir docs"), Outcome::DirectoryCreated);
    assert_eq!(prompt(&s), before);
    assert_eq!(run(&mut s, b"cd docs"), Outcome::ChangedDirectory);
    assert_eq!(prompt(&s), b"/docs> ");
    let before = prompt(&s);
    assert_eq!(run(&mut s, b"mkdir notes"), Outcome::DirectoryCreated);
    assert_eq!(run(&mut s, b"cd notes"), Outcome::ChangedDirectory);
    let mut want = before[..before.len() - 2].to_vec();
    want.extend_from_slice(b"/notes> ");
    assert_eq!(prompt(&s), want);
    assert_eq!(prompt(&s), b"/docs/notes> ");
}

#[test]
fn cd_up_from_the_root_changes_nothing() {
    let mut s = Session::new();
    assert_eq!(run(&mut s, b"cd .."), Outcome::AlreadyAtRoot);
    assert_eq!(s.cwd(), 0);
    run(&mut s, b"mkdir a");
    run(&mut s, b"cd a");
    assert_eq!(s.cwd(), 1);
    assert_eq!(run(&mut s, b"cd .."), Outcome::MovedUp);
    assert_eq!(s.cwd(), 0);
    assert_eq!(run(&mut s, b"cd .."), Outcome::AlreadyAtRoot);
    assert_eq!(run(&mut s, b"cd .."), Outcome::AlreadyAtRoot);
    assert_eq!(s.cwd(), 0);
    assert_eq!(prompt(&s), b"/> ");
}

#[test]
fn cd_to_a_missing_directory_is_reported() {
    let mut s = Session::new();
    run(&mut s, b"mkdir a");
    assert_eq!(run(&mut s, b"cd b"), Outcome::Failed(Error::NotFound, Kind::Directory));
    assert_eq!(s.cwd(), 0);
    assert_eq!(run(&mut s, b"cd .. "), Outcome::Failed(Error::NotFound, Kind::Directory));
    assert_eq!(run(&mut s, b"cd a/b"), Outcome::Failed(Error::NotFound, Kind::Directory));
    assert_eq!(run(&mut s, b"cd a trailing words"), Outcome::ChangedDirectory);
    assert_eq!(s.cwd(), 1);
}

#[test]
fn the_ninth_mkdir_reports_a_capacity_failure() {
    let mut s = Session::new();
    for i in 0..8u8 {
        let line = [b"mkdir d".as_slice(), &[b'0' + i]].concat();
        assert_eq!(run(&mut s, &line), Outcome::DirectoryCreated);
    }
    let listing = run(&mut s, b"ls");
    assert_eq!(run(&mut s, b"mkdir d8"), Outcome::Failed(Error::CapacityExceeded, Kind::Directory));
    assert_eq!(s.fs().len(), 9);
    assert_eq!(s.fs().dir(0).child_count(), 8);
    assert_eq!(run(&mut s, b"ls"), listing);
    assert_eq!(run(&mut s, b"cd d8"), Outcome::Failed(Error::NotFound, Kind::Directory));
    assert_eq!(s.cwd(), 0);
}

#[test]
fn the_seventeenth_touch_or_write_reports_a_capacity_failure() {
    let mut s = Session::new();
    for i in 0..16u8 {
        let line = [b"touch f".as_slice(), &[b'a' + i], b".txt"].concat();
        assert_eq!(run(&mut s, &line), Outcome::FileCreated);
    }
    assert_eq!(run(&mut s, b"touch more"), Outcome::Failed(Error::CapacityExceeded, Kind::File));
    assert_eq!(
        run(&mut s, b"write more.txt text"),
        Outcome::Failed(Error::CapacityExceeded, Kind::File)
    );
    assert_eq!(s.fs().dir(0).file_count(), 16);
    assert_eq!(run(&mut s, b"write fa.txt text"), Outcome::WroteFile);
    assert_eq!(run(&mut s, b"cat fa.txt"), Outcome::Contents(b"text".to_vec()));
    assert_eq!(s.fs().dir(0).file_count(), 16);
}

#[test]
fn sixteen_writes_fill_a_directory_too() {
    let mut s = Session::new();
    for i in 0..16u8 {
        let line = [b"write w".as_slice(), &[b'a' + i], b".txt x"].concat();
        assert_eq!(run(&mut s, &line), Outcome::WroteFile);
    }
    assert_eq!(
        run(&mut s, b"write last.txt x"),
        Outcome::Failed(Error::CapacityExceeded, Kind::File)
    );
    assert_eq!(run(&mut s, b"touch last"), Outcome::Failed(Error::CapacityExceeded, Kind::File));
}

#[test]
fn write_then_cat_shows_what_was_written() {
    let mut s = Session::new();
    assert_eq!(run(&mut s, b"write a.txt hello"), Outcome::WroteFile);
    assert_eq!(run(&mut s, b"cat a.txt"), Outcome::Contents(b"hello".to_vec()));
}

#[test]
fn a_second_write_overwrites() {
    let mut s = Session::new();
    assert_eq!(run(&mut s, b"write a.txt hello"), Outcome::WroteFile);
    assert_eq!(run(&mut s, b"write a.txt hi"), Outcome::WroteFile);
    assert_eq!(run(&mut s, b"cat a.txt"), Outcome::Contents(b"hi".to_vec()));
    assert_eq!(s.fs().dir(0).file_count(), 1);
}

#[test]
fn cat_reports_missing_files_and_rejects_other_types() {
    let mut s = Session::new();
    run(&mut s, b"touch readme");
    assert_eq!(run(&mut s, b"cat missing.txt"), Outcome::Failed(Error::NotFound, Kind::File));
    assert_eq!(
        run(&mut s, b"cat readme"),
        Outcome::Failed(Error::InvalidOperationForType, Kind::File)
    );
    assert_eq!(s.fs().len(), 1);
    assert_eq!(s.fs().dir(0).file_count(), 1);
    assert_eq!(s.fs().dir(0).file(0).len(), 0);
    assert_eq!(s.cwd(), 0);
}

#[test]
fn write_rejects_other_types_and_missing_text() {
    let mut s = Session::new();
    assert_eq!(
        run(&mut s, b"write readme hello"),
        Outcome::Failed(Error::InvalidOperationForType, Kind::File)
    );
    assert_eq!(
        run(&mut s, b"write a.txt"),
        Outcome::Failed(Error::MalformedCommand, Kind::File)
    );
    assert_eq!(
        run(&mut s, b"write"),
        Outcome::UnknownCommand
    );
    assert_eq!(s.fs().dir(0).file_count(), 0);
    assert_eq!(run(&mut s, b"write a.txt "), Outcome::WroteFile);
    assert_eq!(run(&mut s, b"cat a.txt"), Outcome::Contents(vec![]));
}

#[test]
fn write_cuts_the_text_to_what_a_file_holds() {
    let mut s = Session::new();
    let text = vec![b'x'; 300];
    let outcome = s.write(b"big.txt", &text);
    assert_eq!(outcome, Outcome::WroteFile);
    assert_eq!(s.cat(b"big.txt"), Outcome::Contents(vec![b'x'; 256]));
}

#[test]
fn ls_shows_directories_in_brackets_before_files() {
    let mut s = Session::new();
    run(&mut s, b"touch a.txt");
    run(&mut s, b"mkdir docs");
    assert_eq!(run(&mut s, b"ls"), Outcome::Listing(b"[docs] a.txt ".to_vec()));
    run(&mut s, b"mkdir bin");
    run(&mut s, b"write b.txt x");
    assert_eq!(run(&mut s, b"ls"), Outcome::Listing(b"[docs] [bin] a.txt b.txt ".to_vec()));
}

#[test]
fn ls_twice_shows_the_same() {
    let mut s = Session::new();
    run(&mut s, b"mkdir docs");
    run(&mut s, b"touch a.txt");
    let first = run(&mut s, b"ls");
    let second = run(&mut s, b"ls");
    let third = run(&mut s, b"ls");
    assert_eq!(first, second);
    assert_eq!(second, third);
    assert_eq!(s.ls(), b"[docs] a.txt ");
}

#[test]
fn ls_leaves_out_what_does_not_fit_the_line() {
    let mut s = Session::new();
    for i in 0..8u8 {
        let mut line = b"mkdir ".to_vec();
        line.extend_from_slice(&[b'a' + i; 16]);
        assert_eq!(run(&mut s, &line), Outcome::DirectoryCreated);
    }
    run(&mut s, b"touch f");
    run(&mut s, b"touch gg");
    let mut want = Vec::new();
    for i in 0..4u8 {
        want.push(b'[');
        want.extend_from_slice(&[b'a' + i; 16]);
        want.extend_from_slice(b"] ");
    }
    want.extend_from_slice(b"f ");
    assert_eq!(want.len(), 78);
    assert_eq!(s.ls(), want);
}

#[test]
fn a_created_entry_is_found_under_its_name() {
    let mut s = Session::new();
    assert_eq!(run(&mut s, b"touch 0123456789ab.txt"), Outcome::FileCreated);
    assert_eq!(run(&mut s, b"cat 0123456789ab.txt"), Outcome::Contents(vec![]));
    assert_eq!(run(&mut s, b"mkdir sixteen_letters_"), Outcome::DirectoryCreated);
    assert_eq!(run(&mut s, b"cd sixteen_letters_"), Outcome::ChangedDirectory);
    assert_eq!(s.cwd(), 1);
    assert_eq!(s.fs().dir(1).parent(), Some(0));
}

#[test]
fn a_name_longer_than_its_field_is_not_found_again() {
    let mut s = Session::new();
    assert_eq!(run(&mut s, b"mkdir seventeen_letters"), Outcome::DirectoryCreated);
    assert_eq!(
        run(&mut s, b"cd seventeen_letters"),
        Outcome::Failed(Error::NotFound, Kind::Directory)
    );
    assert_eq!(run(&mut s, b"cd seventeen_letter"), Outcome::ChangedDirectory);
}

#[test]
fn the_other_commands_leave_the_session_alone() {
    let mut s = Session::new();
    run(&mut s, b"mkdir d");
    run(&mut s, b"touch f");
    assert_eq!(run(&mut s, b""), Outcome::Nothing);
    assert_eq!(run(&mut s, b"clear"), Outcome::Cleared);
    assert_eq!(run(&mut s, b"about"), Outcome::About);
    assert_eq!(run(&mut s, b"echo hi there"), Outcome::Echoed(b"hi there".to_vec()));
    assert_eq!(run(&mut s, b"dir"), Outcome::UnknownCommand);
    assert_eq!(s.cwd(), 0);
    assert_eq!(s.fs().len(), 2);
    assert_eq!(s.ls(), b"[d] f ");
}

#[test]
fn each_failure_has_its_message() {
    assert_eq!(failure_message(Error::CapacityExceeded, Kind::Directory), "No space for directory");
    assert_eq!(failure_message(Error::CapacityExceeded, Kind::File), "No space for file");
    assert_eq!(failure_message(Error::NotFound, Kind::Directory), "No such directory");
    assert_eq!(failure_message(Error::NotFound, Kind::File), "No such file");
    assert_eq!(
        failure_message(Error::InvalidOperationForType, Kind::File),
        "Only .txt files supported"
    );
    assert_eq!(
        failure_message(Error::InvalidOperationForType, Kind::Directory),
        "Only .txt files supported"
    );
    assert_eq!(
        failure_message(Error::MalformedCommand, Kind::File),
        "Usage: write <file.txt> <text>"
    );
}
