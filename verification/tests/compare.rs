use filefind::compare::type_passes;
use filefind::{compare_func, EntryKind, FileType, Matcher, Pattern};

const KINDS: [EntryKind; 6] = [
    EntryKind::File,
    EntryKind::Dir,
    EntryKind::Link,
    EntryKind::Socket,
    EntryKind::CharDevice,
    EntryKind::Other,
];

fn accepted(pattern: &str, ftype: FileType, kind: Option<EntryKind>, name: &str) -> bool {
    let pattern = Pattern::new(pattern).unwrap();
    compare_func(&pattern, ftype).matches(kind, &String::from(name))
}

#[test]
fn empty_pattern_matches_any_name() {
    for name in ["anything", "", ".hidden", "with space", "\u{1F4A9}"] {
        assert!(accepted("", FileType::All, Some(EntryKind::File), name));
        assert!(accepted("", FileType::Dir, Some(EntryKind::Dir), name));
        assert!(!accepted("", FileType::Dir, Some(EntryKind::File), name));
    }
}

#[test]
fn all_passes_every_known_kind() {
    for kind in KINDS {
        assert!(type_passes(FileType::All, kind));
        assert!(accepted("", FileType::All, Some(kind), "x"));
    }
}

#[test]
fn each_type_filter_passes_only_its_kind() {
    let pairs = [
        (FileType::File, EntryKind::File),
        (FileType::Dir, EntryKind::Dir),
        (FileType::Link, EntryKind::Link),
        (FileType::Socket, EntryKind::Socket),
        (FileType::CharDevice, EntryKind::CharDevice),
    ];
    for (ftype, own) in pairs {
        for kind in KINDS {
            assert_eq!(type_passes(ftype, kind), kind == own);
            assert_eq!(accepted("", ftype, Some(kind), "x"), kind == own);
        }
    }
}

#[test]
fn other_kinds_pass_only_all() {
    assert!(accepted("", FileType::All, Some(EntryKind::Other), "fifo"));
    for ftype in [
        FileType::File,
        FileType::Dir,
        FileType::Link,
        FileType::Socket,
        FileType::CharDevice,
    ] {
        assert!(!accepted("", ftype, Some(EntryKind::Other), "fifo"));
    }
}

#[test]
fn unknown_kind_never_matches() {
    for ftype in [
        FileType::All,
        FileType::File,
        FileType::Dir,
        FileType::Link,
        FileType::Socket,
        FileType::CharDevice,
    ] {
        assert!(!accepted("", ftype, None, "x"));
        assert!(!accepted("x", ftype, None, "x"));
    }
}

#[test]
fn name_must_hold_a_match() {
    assert!(accepted("foo", FileType::All, Some(EntryKind::File), "foobar"));
    assert!(accepted("foo", FileType::All, Some(EntryKind::File), "barfoo"));
    assert!(accepted("o+b", FileType::All, Some(EntryKind::File), "foobar"));
    assert!(!accepted("foo", FileType::All, Some(EntryKind::File), "bar"));
    assert!(!accepted("^bar", FileType::All, Some(EntryKind::File), "foobar"));
    assert!(!accepted("foo", FileType::All, Some(EntryKind::File), ""));
}

#[test]
fn type_and_name_must_both_pass() {
    assert!(accepted("foo", FileType::Dir, Some(EntryKind::Dir), "foo"));
    assert!(!accepted("foo", FileType::Dir, Some(EntryKind::File), "foo"));
    assert!(!accepted("foo", FileType::Dir, Some(EntryKind::Dir), "bar"));
    assert!(!accepted("foo", FileType::Dir, Some(EntryKind::File), "bar"));
}

#[test]
fn dir_and_file_filters_never_agree() {
    for kind in KINDS {
        for name in ["foo", "bar", ""] {
            let as_dir = accepted("foo|^$", FileType::Dir, Some(kind), name);
            let as_file = accepted("foo|^$", FileType::File, Some(kind), name);
            assert!(!(as_dir && as_file));
            assert_eq!(as_dir, kind == EntryKind::Dir && name != "bar");
            assert_eq!(as_file, kind == EntryKind::File && name != "bar");
        }
    }
}
