use oxos::fs::directory::Directory;
use oxos::fs::file::File;
use oxos::fs::slots::first_empty;
use oxos::name::Name;

#[test]
fn a_new_file_is_empty() {
    let f = File::new(Name::new(b"a.txt"));
    assert_eq!(f.name().as_bytes(), b"a.txt");
    assert_eq!(f.len(), 0);
    assert_eq!(f.data(), b"");
}

#[test]
fn write_replaces_the_content() {
    let mut f = File::new(Name::new(b"a.txt"));
    f.write(b"hello world");
    assert_eq!(f.data(), b"hello world");
    assert_eq!(f.len(), 11);
    f.write(b"hi");
    assert_eq!(f.data(), b"hi");
    f.write(b"");
    assert_eq!(f.len(), 0);
    f.write(&[9u8; 257]);
    assert_eq!(f.len(), 256);
    assert_eq!(f.data(), &[9u8; 256][..]);
    assert_eq!(f.name().as_bytes(), b"a.txt");
}

#[test]
fn a_directory_fills_its_slots_in_order() {
    let mut d = Directory::new(Name::new(b"docs"), Some(3));
    assert_eq!(d.name().as_bytes(), b"docs");
    assert_eq!(d.parent(), Some(3));
    assert_eq!(d.file_count(), 0);
    assert_eq!(d.child_count(), 0);
    assert_eq!(d.push_file(File::new(Name::new(b"x"))), Some(0));
    assert_eq!(d.push_file(File::new(Name::new(b"y"))), Some(1));
    assert_eq!(d.push_child(7), Some(0));
    assert_eq!(d.push_child(9), Some(1));
    assert_eq!(d.child(0), 7);
    assert_eq!(d.child(1), 9);
    assert_eq!(d.file(1).name().as_bytes(), b"y");
    assert_eq!(d.find_file_slot(b"y"), Some(1));
    assert!(d.find_file(b"x").is_some());
    assert!(d.find_file(b"z").is_none());
    d.write_slot(1, b"content");
    assert_eq!(d.find_file(b"y").unwrap().data(), b"content");
    assert_eq!(d.file(0).len(), 0);
    d.find_file_mut(b"x").unwrap().write(b"more");
    assert_eq!(d.file(0).data(), b"more");
    assert!(d.find_file_mut(b"nothing").is_none());
}

#[test]
fn a_full_directory_takes_no_more() {
    let mut d = Directory::new(Name::empty(), None);
    for i in 0..16 {
        assert_eq!(d.push_file(File::new(Name::new(b"f"))), Some(i));
    }
    assert_eq!(d.push_file(File::new(Name::new(b"g"))), None);
    assert_eq!(d.file_count(), 16);
    for i in 0..8 {
        assert_eq!(d.push_child(i + 1), Some(i));
    }
    assert_eq!(d.push_child(20), None);
    assert_eq!(d.child_count(), 8);
    assert_eq!(d.find_file_slot(b"g"), None);
}

#[test]
fn first_empty_finds_the_first_gap() {
    let none: [Option<u8>; 3] = [None, None, None];
    assert_eq!(first_empty(&none), 0);
    assert_eq!(first_empty(&[Some(1u8), None, Some(3)]), 1);
    assert_eq!(first_empty(&[Some(1u8), Some(2), Some(3)]), 3);
    let empty: [Option<u8>; 0] = [];
    assert_eq!(first_empty(&empty), 0);
}
