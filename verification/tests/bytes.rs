use oxos::bytes::{bytes_eq, copy_at, ends_with, memcmp, memcpy, memset, starts_with};

#[test]
fn memset_fills_a_prefix_with_the_low_byte() {
    let mut buf = [1u8, 2, 3, 4, 5];
    memset(&mut buf, 0x41, 3);
    assert_eq!(buf, [0x41, 0x41, 0x41, 4, 5]);
    memset(&mut buf, 0x1_42, 5);
    assert_eq!(buf, [0x42; 5]);
    memset(&mut buf, -1, 1);
    assert_eq!(buf, [0xff, 0x42, 0x42, 0x42, 0x42]);
    memset(&mut buf, 7, 0);
    assert_eq!(buf, [0xff, 0x42, 0x42, 0x42, 0x42]);
}

#[test]
fn memcpy_copies_a_prefix() {
    let mut dest = [0u8; 6];
    memcpy(&mut dest, b"hello world", 4);
    assert_eq!(&dest, b"hell\0\0");
    memcpy(&mut dest, b"xy", 0);
    assert_eq!(&dest, b"hell\0\0");
    memcpy(&mut dest, b"abcdef", 6);
    assert_eq!(&dest, b"abcdef");
}

#[test]
fn memcmp_gives_the_difference_at_the_first_mismatch() {
    assert_eq!(memcmp(b"abc", b"abc", 3), 0);
    assert_eq!(memcmp(b"abc", b"abd", 3), -1);
    assert_eq!(memcmp(b"abd", b"abc", 3), 1);
    assert_eq!(memcmp(b"abc", b"abd", 2), 0);
    assert_eq!(memcmp(b"", b"", 0), 0);
    assert_eq!(memcmp(&[0xff, 0], &[0x00, 9], 2), 255);
    assert_eq!(memcmp(&[0x00, 0], &[0xff, 9], 2), -255);
    assert_eq!(memcmp(b"azz", b"baa", 3), -1);
}

#[test]
fn copy_at_writes_in_the_middle() {
    let mut dest = *b"0123456789";
    copy_at(&mut dest, 3, b"abc");
    assert_eq!(&dest, b"012abc6789");
    copy_at(&mut dest, 10, b"");
    assert_eq!(&dest, b"012abc6789");
    copy_at(&mut dest, 8, b"XY");
    assert_eq!(&dest, b"012abc67XY");
}

#[test]
fn prefixes_suffixes_and_equality() {
    assert!(starts_with(b"mkdir docs", b"mkdir "));
    assert!(!starts_with(b"mkdir", b"mkdir "));
    assert!(starts_with(b"anything", b""));
    assert!(!starts_with(b"mkdiR docs", b"mkdir "));
    assert!(ends_with(b"a.txt", b".txt"));
    assert!(ends_with(b".txt", b".txt"));
    assert!(!ends_with(b"txt", b".txt"));
    assert!(!ends_with(b"a.txt ", b".txt"));
    assert!(bytes_eq(b"ls", b"ls"));
    assert!(!bytes_eq(b"ls", b"ls "));
    assert!(!bytes_eq(b"ls", b"lS"));
    assert!(bytes_eq(b"", b""));
}
