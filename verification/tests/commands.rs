use oxos::command::{find_space, Command};

#[test]
fn keywords_with_an_argument_take_the_rest_of_the_line() {
    assert_eq!(Command::parse(b"echo hello world"), Command::Echo(&b"hello world"[..]));
    assert_eq!(Command::parse(b"echo "), Command::Echo(&b""[..]));
    assert_eq!(Command::parse(b"mkdir docs"), Command::Mkdir(&b"docs"[..]));
    assert_eq!(Command::parse(b"mkdir a b"), Command::Mkdir(&b"a b"[..]));
    assert_eq!(Command::parse(b"cd docs"), Command::Cd(&b"docs"[..]));
    assert_eq!(Command::parse(b"cd .."), Command::Cd(&b".."[..]));
    assert_eq!(Command::parse(b"touch notes"), Command::Touch(&b"notes"[..]));
    assert_eq!(Command::parse(b"cat a.txt"), Command::Cat(&b"a.txt"[..]));
    assert_eq!(Command::parse(b"cat "), Command::Cat(&b""[..]));
}

#[test]
fn write_splits_its_arguments_at_the_first_space() {
    assert_eq!(
        Command::parse(b"write a.txt hello"),
        Command::Write { name: &b"a.txt"[..], text: &b"hello"[..] }
    );
    assert_eq!(
        Command::parse(b"write a.txt hello big world"),
        Command::Write { name: &b"a.txt"[..], text: &b"hello big world"[..] }
    );
    assert_eq!(
        Command::parse(b"write a.txt "),
        Command::Write { name: &b"a.txt"[..], text: &b""[..] }
    );
    assert_eq!(
        Command::parse(b"write  x"),
        Command::Write { name: &b""[..], text: &b"x"[..] }
    );
    assert_eq!(Command::parse(b"write a.txt"), Command::Malformed);
    assert_eq!(Command::parse(b"write "), Command::Malformed);
}

#[test]
fn keywords_that_stand_alone_must_be_the_whole_line() {
    assert_eq!(Command::parse(b"clear"), Command::Clear);
    assert_eq!(Command::parse(b"ls"), Command::Ls);
    assert_eq!(Command::parse(b"about"), Command::About);
    assert_eq!(Command::parse(b"clear "), Command::Unknown);
    assert_eq!(Command::parse(b"ls -l"), Command::Unknown);
    assert_eq!(Command::parse(b" ls"), Command::Unknown);
    assert_eq!(Command::parse(b"about us"), Command::Unknown);
}

#[test]
fn anything_else_is_unknown_and_nothing_is_empty() {
    assert_eq!(Command::parse(b""), Command::Empty);
    assert_eq!(Command::parse(b" "), Command::Unknown);
    assert_eq!(Command::parse(b"echo"), Command::Unknown);
    assert_eq!(Command::parse(b"mkdir"), Command::Unknown);
    assert_eq!(Command::parse(b"cd"), Command::Unknown);
    assert_eq!(Command::parse(b"touch"), Command::Unknown);
    assert_eq!(Command::parse(b"write"), Command::Unknown);
    assert_eq!(Command::parse(b"cat"), Command::Unknown);
    assert_eq!(Command::parse(b"LS"), Command::Unknown);
    assert_eq!(Command::parse(b"rm a.txt"), Command::Unknown);
}

#[test]
fn find_space_gives_the_length_when_there_is_none() {
    assert_eq!(find_space(b""), 0);
    assert_eq!(find_space(b"abc"), 3);
    assert_eq!(find_space(b"ab c d"), 2);
    assert_eq!(find_space(b" abc"), 0);
    assert_eq!(find_space(b"ab\0c"), 4);
}
