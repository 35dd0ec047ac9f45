use oxos::name::{meaningful_length, name_eq, Name, MAX_NAME};

#[test]
fn names_end_at_the_first_space_or_nul() {
    assert!(name_eq(b"docs", b"docs"));
    assert!(name_eq(b"docs", b"docs extra"));
    assert!(name_eq(b"docs\0\0\0\0", b"docs "));
    assert!(name_eq(b"docs\0junk", b"docs other"));
    assert!(!name_eq(b"docs", b"doc"));
    assert!(!name_eq(b"docs", b"Docs"));
    assert!(!name_eq(b"docs", b"docs1"));
    assert!(name_eq(b"", b" "));
    assert!(name_eq(b"\0abc", b" xyz"));
}

#[test]
fn meaningful_length_counts_up_to_the_terminator() {
    assert_eq!(meaningful_length(b""), 0);
    assert_eq!(meaningful_length(b"abc"), 3);
    assert_eq!(meaningful_length(b"abc def"), 3);
    assert_eq!(meaningful_length(b"ab\0cdef"), 2);
    assert_eq!(meaningful_length(b" abc"), 0);
    assert_eq!(meaningful_length(b"/               "), 1);
}

#[test]
fn a_name_field_keeps_sixteen_bytes() {
    assert_eq!(MAX_NAME, 16);
    let n = Name::new(b"abcdefghijklmnopqrstuvwxyz");
    assert_eq!(n.as_bytes(), b"abcdefghijklmnop");
    assert_eq!(n.len(), 16);
    let exact = Name::new(b"0123456789abcdef");
    assert_eq!(exact.as_bytes(), b"0123456789abcdef");
    let short = Name::new(b"a.txt hello");
    assert_eq!(short.as_bytes(), b"a.txt");
    assert_eq!(short.len(), 5);
    assert_eq!(Name::root().as_bytes(), b"/");
    assert_eq!(Name::empty().len(), 0);
    assert_eq!(Name::new(b"").as_bytes(), b"");
}

#[test]
fn a_stored_name_matches_what_it_was_made_from() {
    let n = Name::new(b"readme.txt");
    assert!(n.matches(b"readme.txt"));
    assert!(n.matches(b"readme.txt and more"));
    assert!(!n.matches(b"readme"));
    assert!(!n.matches(b"readme.txt2"));
    let long = Name::new(b"abcdefghijklmnopq");
    assert!(!long.matches(b"abcdefghijklmnopq"));
    assert!(long.matches(b"abcdefghijklmnop"));
}
